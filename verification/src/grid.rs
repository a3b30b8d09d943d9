//! Turning cells into instances to draw.
//!
//! The failures that matter in a terminal renderer (a background drawn for a
//! blank cell, a wide glyph covering one column, an underline colour that falls
//! back to the text colour) are all decided here, on plain values.

use vstd::prelude::*;

use crate::atlas::{
    drawn_for, key_code, lookup_result, Atlas, AtlasView, GlyphEntry, GlyphId, GlyphKey,
};
use crate::cell::{
    Cell, CellFlags, ContentView, BOLD_BITS, DIM_BITS, HIDDEN_BITS, INVERSE_BITS, ITALIC_BITS,
    OVERLINE_BITS, STRIKETHROUGH_BITS, UNDERLINE_MASK_BITS, WIDE_SPACER_BITS,
};
use crate::fontset::{CellMetrics, Style};
use crate::material::{
    is_between, law_levels_are_exact_to_half_a_step, law_mixing_is_exact_to_half_a_step, lerped,
    resolved, role_index, Fraction, Material, MaterialView, Rgb, Role,
};
use crate::mirror::RowRef;
use crate::raster::{
    bitmap_view, path_of, scalar_result, span_columns, Bitmap, BitmapView, PixelFormat,
};
use crate::semantic::{Block, BlockStatus, BlockView};
use crate::sidetable::{Extras, SideTables};

verus! {

/// Packed colour with alpha.
#[derive(Debug, Clone, Copy, PartialEq, Eq, Hash, Structural)]
pub struct Rgba {
    pub r: u8,
    pub g: u8,
    pub b: u8,
    pub a: u8,
}

/// A colour at an alpha level.
pub open spec fn tinted(c: Rgb, a: int) -> Rgba {
    Rgba { r: c.r, g: c.g, b: c.b, a: a as u8 }
}

impl Rgba {
    pub fn opaque(rgb: Rgb) -> (c: Rgba)
        ensures
            c == tinted(rgb, 255),
    {
        Rgba { r: rgb.r, g: rgb.g, b: rgb.b, a: 255 }
    }

    pub fn with_alpha(rgb: Rgb, alpha: Fraction) -> (c: Rgba)
        requires
            alpha.wf(),
        ensures
            c == tinted(rgb, alpha.level()),
    {
        Rgba { r: rgb.r, g: rgb.g, b: rgb.b, a: alpha.to_level() }
    }

    pub fn alpha(self) -> (a: u8)
        ensures
            a == self.a,
    {
        self.a
    }
}

/// A cell's background.
#[derive(Debug, Clone, Copy, PartialEq, Eq)]
pub struct BgInstance {
    /// Column and row.
    pub cell: (u16, u16),
    /// In columns.
    pub width: u16,
    pub color: Rgba,
}

impl BgInstance {
    pub fn new(column: u16, row: u16, width: u16, color: Rgba) -> (b: BgInstance)
        ensures
            b == (BgInstance { cell: (column, row), width, color }),
    {
        BgInstance { cell: (column, row), width, color }
    }
}

/// A glyph in a cell.
#[derive(Debug, Clone, Copy, PartialEq, Eq)]
pub struct GlyphInstance {
    /// Column and row.
    pub cell: (u16, u16),
    /// From the cell's corner.
    pub offset: (i16, i16),
    pub size: (u16, u16),
    /// Where the pixels lie on the atlas page.
    pub uv_origin: (u16, u16),
    pub color: Rgba,
    pub page: u16,
    pub flags: u16,
}

/// Sample a colour page and do not tint.
pub const GLYPH_FLAG_COLOR: u16 = 1;

/// An underline, strikethrough or overline.
#[derive(Debug, Clone, Copy, PartialEq, Eq)]
pub struct RuleInstance {
    /// Column and row.
    pub cell: (u16, u16),
    /// In columns.
    pub width: u16,
    pub style: u16,
    pub offset: i16,
    pub thickness: u16,
    pub color: Rgba,
}

/// A command block's mark beside the grid. Its corners are rounded by half its
/// width.
#[derive(Debug, Clone, Copy, PartialEq, Eq)]
pub struct GutterInstance {
    pub row: u16,
    pub rows: u16,
    pub color: Rgba,
    /// In hundredths of a pixel.
    pub width: u32,
}

/// A rectangle of an overlay. Lengths are in hundredths of a pixel.
#[derive(Debug, Clone, Copy, PartialEq, Eq)]
pub struct QuadInstance {
    pub origin: (i128, i128),
    pub size: (i128, i128),
    pub fill: Rgba,
    pub border: Rgba,
    pub radius: u32,
    pub border_width: u32,
}

/// A glyph of an overlay. Its place is in hundredths of a pixel.
#[derive(Debug, Clone, Copy, PartialEq, Eq)]
pub struct UiTextInstance {
    pub origin: (i128, i128),
    pub size: (u16, u16),
    pub uv_origin: (u16, u16),
    pub color: Rgba,
    pub page: u16,
    pub flags: u16,
}

/// One frame's worth of instances, reused from frame to frame.
#[derive(Debug)]
pub struct InstanceBuffers {
    pub backgrounds: Vec<BgInstance>,
    pub glyphs: Vec<GlyphInstance>,
    pub rules: Vec<RuleInstance>,
    pub gutters: Vec<GutterInstance>,
    pub quads: Vec<QuadInstance>,
    pub ui_text: Vec<UiTextInstance>,
}

impl InstanceBuffers {
    pub fn new() -> (b: InstanceBuffers)
        ensures
            b.nothing(),
    {
        InstanceBuffers {
            backgrounds: Vec::new(),
            glyphs: Vec::new(),
            rules: Vec::new(),
            gutters: Vec::new(),
            quads: Vec::new(),
            ui_text: Vec::new(),
        }
    }

    /// Whether there is nothing to draw.
    pub open spec fn nothing(self) -> bool {
        &&& self.backgrounds@.len() == 0
        &&& self.glyphs@.len() == 0
        &&& self.rules@.len() == 0
        &&& self.gutters@.len() == 0
        &&& self.quads@.len() == 0
        &&& self.ui_text@.len() == 0
    }

    /// Drops the grid's own instances, which are built again only when the
    /// terminal reports damage.
    pub fn clear_rows(&mut self)
        ensures
            final(self).backgrounds@.len() == 0,
            final(self).glyphs@.len() == 0,
            final(self).rules@.len() == 0,
            final(self).gutters == old(self).gutters,
            final(self).quads == old(self).quads,
            final(self).ui_text == old(self).ui_text,
    {
        self.backgrounds.clear();
        self.glyphs.clear();
        self.rules.clear();
    }

    /// Drops what is built again every frame: the gutter and the overlays. The
    /// rows stay, so a frame without new output keeps its text.
    pub fn clear_transient(&mut self)
        ensures
            final(self).gutters@.len() == 0,
            final(self).quads@.len() == 0,
            final(self).ui_text@.len() == 0,
            final(self).backgrounds == old(self).backgrounds,
            final(self).glyphs == old(self).glyphs,
            final(self).rules == old(self).rules,
    {
        self.gutters.clear();
        self.quads.clear();
        self.ui_text.clear();
    }

    pub fn clear(&mut self)
        ensures
            final(self).nothing(),
    {
        self.clear_rows();
        self.clear_transient();
    }

    pub fn is_empty(&self) -> (yes: bool)
        ensures
            yes == self.nothing(),
    {
        self.backgrounds.len() == 0 && self.glyphs.len() == 0 && self.rules.len() == 0
            && self.gutters.len() == 0 && self.quads.len() == 0 && self.ui_text.len() == 0
    }

    /// How many instances there are.
    pub fn total(&self) -> (n: u128)
        ensures
            n == self.backgrounds@.len() + self.glyphs@.len() + self.rules@.len()
                + self.gutters@.len() + self.quads@.len() + self.ui_text@.len(),
    {
        self.backgrounds.len() as u128 + self.glyphs.len() as u128 + self.rules.len() as u128
            + self.gutters.len() as u128 + self.quads.len() as u128 + self.ui_text.len() as u128
    }
}

impl Default for InstanceBuffers {
    fn default() -> (b: InstanceBuffers)
        ensures
            b.nothing(),
    {
        InstanceBuffers::new()
    }
}

/// The underline style that a cell's flags name: 1 single, 2 double, 3 curly,
/// 4 dotted, 5 dashed, 0 none.
pub open spec fn underline_of(flags: u16) -> u16 {
    let style = (flags & UNDERLINE_MASK_BITS) / 256;
    if style <= 5 {
        style
    } else {
        0
    }
}

pub fn underline_style(flags: CellFlags) -> (style: u16)
    ensures
        style == underline_of(flags@),
{
    let masked: u16 = flags.intersection(CellFlags::underline_mask()).bits() / 256;
    if masked <= 5 {
        masked
    } else {
        0
    }
}

/// Whether flags hold all bits of a set.
pub open spec fn holds(flags: u16, bits: u16) -> bool {
    flags & bits == bits
}

/// A cell's text and background colours: through the theme, swapped where the
/// cell is inverse, the text moved seven tenths of the way to the background where
/// it is dim and onto it where it is hidden.
pub open spec fn cell_colors(cell: Cell, m: MaterialView) -> (Rgb, Rgb) {
    let front = resolved(m, cell.fg@, Role::Foreground);
    let back = resolved(m, cell.bg@, Role::Background);
    let (fg, bg) = if holds(cell.flags@, INVERSE_BITS) {
        (back, front)
    } else {
        (front, back)
    };
    let dimmed = if holds(cell.flags@, DIM_BITS) {
        lerped(fg, bg, Fraction { num: 7, den: 10 })
    } else {
        fg
    };
    (
        if holds(cell.flags@, HIDDEN_BITS) {
            bg
        } else {
            dimmed
        },
        bg,
    )
}

pub fn resolve_colors(cell: &Cell, material: &Material) -> (c: (Rgb, Rgb))
    requires
        material.wf(),
    ensures
        c == cell_colors(*cell, material@),
{
    let mut fg = material.resolve(cell.fg, Role::Foreground);
    let mut bg = material.resolve(cell.bg, Role::Background);
    if cell.flags.contains(CellFlags::inverse()) {
        let swapped = fg;
        fg = bg;
        bg = swapped;
    }
    if cell.flags.contains(CellFlags::dim()) {
        fg = fg.lerp(bg, Fraction { num: 7, den: 10 });
    }
    if cell.flags.contains(CellFlags::hidden()) {
        fg = bg;
    }
    (fg, bg)
}

/// The face that a cell's flags name.
pub open spec fn cell_style(flags: u16) -> Style {
    Style { bold: holds(flags, BOLD_BITS), italic: holds(flags, ITALIC_BITS) }
}

fn style_of(cell: &Cell) -> (s: Style)
    ensures
        s == cell_style(cell.flags@),
{
    Style { bold: cell.flags.contains(CellFlags::bold()), italic: cell.flags.contains(CellFlags::italic()) }
}

/// How many columns a cell covers: one or two.
pub open spec fn cell_columns(width: u8) -> u8 {
    if width < 1 {
        1
    } else if width > 2 {
        2
    } else {
        width
    }
}

fn columns_of(width: u8) -> (n: u8)
    ensures
        n == cell_columns(width),
        1 <= n <= 2,
{
    if width < 1 {
        1
    } else if width > 2 {
        2
    } else {
        width
    }
}

/// What a row is drawn with.
pub struct RowView {
    pub material: MaterialView,
    pub clusters: Seq<Seq<char>>,
    pub extras: Seq<Extras>,
    pub metrics: CellMetrics,
    pub alpha: Fraction,
}

/// The colour of a cell's rules: its own underline colour, or its text colour.
pub open spec fn rule_color(v: RowView, cell: Cell) -> Rgba {
    let fg = cell_colors(cell, v.material).0;
    let c = if 1 <= cell.extra <= v.extras.len() {
        match v.extras[cell.extra - 1].underline_color {
            Some(own) => resolved(v.material, own@, Role::Foreground),
            None => fg,
        }
    } else {
        fg
    };
    tinted(c, v.alpha.level())
}

/// One rule under, through or over a cell.
pub open spec fn rule_for(
    v: RowView,
    cell: Cell,
    column: u16,
    row: u16,
    style: u16,
    offset: i16,
) -> RuleInstance {
    RuleInstance {
        cell: (column, row),
        width: cell_columns(cell.width) as u16,
        style,
        offset,
        thickness: v.metrics.underline_thickness,
        color: rule_color(v, cell),
    }
}

/// A cell's rules: underline, strikethrough and overline, in that order.
pub open spec fn cell_rules(v: RowView, cell: Cell, column: u16, row: u16) -> Seq<RuleInstance> {
    let under = if underline_of(cell.flags@) != 0 {
        seq![
            rule_for(
                v,
                cell,
                column,
                row,
                underline_of(cell.flags@),
                v.metrics.underline_position,
            ),
        ]
    } else {
        Seq::empty()
    };
    let through = if holds(cell.flags@, STRIKETHROUGH_BITS) {
        seq![rule_for(v, cell, column, row, 1, v.metrics.strikethrough_position)]
    } else {
        Seq::empty()
    };
    let over = if holds(cell.flags@, OVERLINE_BITS) {
        seq![rule_for(v, cell, column, row, 1, 0)]
    } else {
        Seq::empty()
    };
    under + through + over
}

/// A cell's background: only where it differs from what lies behind the grid.
pub open spec fn cell_backgrounds(v: RowView, cell: Cell, column: u16, row: u16) -> Seq<
    BgInstance,
> {
    let bg = cell_colors(cell, v.material).1;
    if bg != v.material.roles[role_index(Role::Background)] {
        seq![
            BgInstance {
                cell: (column, row),
                width: cell_columns(cell.width) as u16,
                color: tinted(bg, v.alpha.level()),
            },
        ]
    } else {
        Seq::empty()
    }
}

/// Whether a cell has a glyph to look up.
pub open spec fn wants_glyph(cell: Cell) -> bool {
    &&& cell.content@ != ContentView::Scalar(' ')
    &&& cell.content@ != ContentView::Scalar('\0')
    &&& !holds(cell.flags@, HIDDEN_BITS)
}

/// The glyph that a cell wants.
pub open spec fn cell_key(cell: Cell) -> GlyphKey {
    GlyphKey {
        id: match cell.content@ {
            ContentView::Scalar(c) => GlyphId::Scalar(c),
            ContentView::Cluster(i) => GlyphId::Cluster(i),
            ContentView::Unassigned(_) => GlyphId::Cluster(0),
        },
        style: cell_style(cell.flags@),
        columns: cell_columns(cell.width),
    }
}

/// A placed glyph as an instance.
pub open spec fn glyph_for(
    entry: GlyphEntry,
    column: u16,
    row: u16,
    color: Rgba,
) -> GlyphInstance {
    GlyphInstance {
        cell: (column, row),
        offset: (entry.left, entry.top),
        size: (entry.rect.width, entry.rect.height),
        uv_origin: (entry.rect.x, entry.rect.y),
        color,
        page: entry.page,
        flags: if entry.format is Bgra8 {
            GLYPH_FLAG_COLOR
        } else {
            0
        },
    }
}

/// What has been built so far, and the atlas that the glyphs came from.
pub struct RowState {
    pub atlas: AtlasView,
    pub backgrounds: Seq<BgInstance>,
    pub rules: Seq<RuleInstance>,
    pub glyphs: Seq<GlyphInstance>,
}

/// After one more cell, whose glyph the font gives as `drawn` if it is asked.
pub open spec fn after_cell(
    v: RowView,
    s: RowState,
    cell: Cell,
    column: u16,
    row: u16,
    drawn: Option<BitmapView>,
) -> RowState {
    if holds(cell.flags@, WIDE_SPACER_BITS) {
        s
    } else {
        let (atlas, entry) = if wants_glyph(cell) {
            lookup_result(s.atlas, key_code(cell_key(cell)), drawn)
        } else {
            (s.atlas, None)
        };
        RowState {
            atlas,
            backgrounds: s.backgrounds + cell_backgrounds(v, cell, column, row),
            rules: s.rules + cell_rules(v, cell, column, row),
            glyphs: match entry {
                Some(e) => if e.blank() {
                    s.glyphs
                } else {
                    s.glyphs.push(
                        glyph_for(
                            e,
                            column,
                            row,
                            tinted(cell_colors(cell, v.material).0, v.alpha.level()),
                        ),
                    )
                },
                None => s.glyphs,
            },
        }
    }
}

/// After the first `n` cells of a row.
pub open spec fn after_cells(
    v: RowView,
    s: RowState,
    cells: Seq<Cell>,
    row: u16,
    drawn: Seq<Option<BitmapView>>,
    n: int,
) -> RowState
    decreases n,
{
    if n <= 0 {
        s
    } else {
        after_cell(
            v,
            after_cells(v, s, cells, row, drawn, n - 1),
            cells[n - 1],
            (n - 1) as u16,
            row,
            drawn[n - 1],
        )
    }
}

/// Whether the font has to be asked for a key.
pub open spec fn asks_font(a: AtlasView, key: GlyphKey) -> bool {
    !a.entries.contains_key(key_code(key)) && !a.rejected.contains(key_code(key))
}

/// Whether a font may answer a key with that bitmap. A cluster is drawn from
/// its text, and not at all where the text is not known.
pub open spec fn font_gives<R: Fn(GlyphKey, Option<&str>) -> Option<Bitmap>>(
    font: R,
    clusters: Seq<Seq<char>>,
    metrics: CellMetrics,
    key: GlyphKey,
    b: Option<BitmapView>,
) -> bool {
    exists|out: Option<Bitmap>| #[trigger]
        font_answer(font, clusters, metrics, key, out) && bitmap_view(out) == b
}

/// Whether rasterising a key with this font may give that bitmap.
pub open spec fn font_answer<R: Fn(GlyphKey, Option<&str>) -> Option<Bitmap>>(
    font: R,
    clusters: Seq<Seq<char>>,
    metrics: CellMetrics,
    key: GlyphKey,
    out: Option<Bitmap>,
) -> bool {
    match key.id {
        GlyphId::Scalar(ch) => {
            &&& path_of(ch) is Font ==> call_ensures(font, (key, None::<&str>), out)
            &&& scalar_result(ch, metrics, key.columns, bitmap_view(out), bitmap_view(out))
        },
        GlyphId::Cluster(id) => if id < clusters.len() {
            exists|text: &str| text@ == clusters[id as int] && #[trigger] call_ensures(
                font,
                (key, Some(text)),
                out,
            )
        } else {
            out is None
        },
    }
}

/// Whether every bitmap that the row needed is one that the font may give.
pub open spec fn row_drawn<R: Fn(GlyphKey, Option<&str>) -> Option<Bitmap>>(
    v: RowView,
    s: RowState,
    cells: Seq<Cell>,
    row: u16,
    font: R,
    drawn: Seq<Option<BitmapView>>,
    n: int,
) -> bool {
    &&& drawn.len() == n
    &&& forall|i: int|
        #![trigger drawn[i]]
        0 <= i < n && !holds(cells[i].flags@, WIDE_SPACER_BITS) && wants_glyph(cells[i]) && asks_font(
            after_cells(v, s, cells, row, drawn, i).atlas,
            cell_key(cells[i]),
        ) ==> font_gives(font, v.clusters, s.atlas.metrics, cell_key(cells[i]), drawn[i])
}

/// Builds instances for one damaged row.
pub struct RowBuilder<'a> {
    pub material: &'a Material,
    pub tables: &'a SideTables,
    pub metrics: CellMetrics,
    /// Applied to the whole grid, for the theme cross-fade.
    pub alpha: Fraction,
}

impl<'a> RowBuilder<'a> {
    pub open spec fn wf(self) -> bool {
        &&& self.material.wf()
        &&& self.tables.wf()
        &&& self.alpha.wf()
    }

    /// What the row is drawn with.
    pub open spec fn view(self) -> RowView {
        RowView {
            material: self.material@,
            clusters: self.tables.graphemes@,
            extras: self.tables.extras@,
            metrics: self.metrics,
            alpha: self.alpha,
        }
    }

    /// Builds instances for one row. `font` draws a glyph that the atlas does
    /// not have; it is given a cluster's text.
    pub fn build_row<R: Fn(GlyphKey, Option<&str>) -> Option<Bitmap>>(
        &self,
        row: RowRef<'_>,
        atlas: &mut Atlas,
        font: &R,
        out: &mut InstanceBuffers,
    )
        requires
            self.wf(),
            old(atlas).wf(),
            old(atlas)@.metrics.width * 2 <= u16::MAX,
            row.cells@.len() <= 65536,
            forall|key: GlyphKey, text: Option<&str>| #[trigger] call_requires(*font, (key, text)),
        ensures
            final(atlas).wf(),
            final(out).gutters == old(out).gutters,
            final(out).quads == old(out).quads,
            final(out).ui_text == old(out).ui_text,
            exists|drawn: Seq<Option<BitmapView>>|
                #![trigger row_drawn(self.view(), state_of(*old(atlas), *old(out)), row.cells@, row.index, *font, drawn, row.cells@.len() as int)]
                row_drawn(
                    self.view(),
                    state_of(*old(atlas), *old(out)),
                    row.cells@,
                    row.index,
                    *font,
                    drawn,
                    row.cells@.len() as int,
                ) && state_of(*final(atlas), *final(out)) == after_cells(
                    self.view(),
                    state_of(*old(atlas), *old(out)),
                    row.cells@,
                    row.index,
                    drawn,
                    row.cells@.len() as int,
                ),
    {
        let ghost v = self.view();
        let ghost s = state_of(*atlas, *out);
        let ghost mut drawn: Seq<Option<BitmapView>> = Seq::empty();
        let default_bg = self.material.role(Role::Background);
        let n: usize = row.cells.len();
        let mut i: usize = 0;
        while i < n
            invariant
                i <= n == row.cells@.len() <= 65536,
                self.wf(),
                v == self.view(),
                s == state_of(*old(atlas), *old(out)),
                atlas.wf(),
                atlas@.metrics == s.atlas.metrics,
                s.atlas.metrics.width * 2 <= u16::MAX,
                default_bg == v.material.roles[role_index(Role::Background)],
                forall|key: GlyphKey, text: Option<&str>| #[trigger]
                    call_requires(*font, (key, text)),
                out.gutters == old(out).gutters,
                out.quads == old(out).quads,
                out.ui_text == old(out).ui_text,
                row_drawn(v, s, row.cells@, row.index, *font, drawn, i as int),
                state_of(*atlas, *out) == after_cells(
                    v,
                    s,
                    row.cells@,
                    row.index,
                    drawn,
                    i as int,
                ),
            decreases n - i,
        {
            let cell: Cell = row.cells[i];
            let column: u16 = i as u16;
            let ghost before = drawn;
            let ghost state = state_of(*atlas, *out);
            let given = self.build_cell(&cell, column, row.index, default_bg, atlas, font, out);
            proof {
                drawn = before.push(given@);
                lemma_drawn_extends(v, s, row.cells@, row.index, before, given@, i as int);
                assert(drawn[i as int] == given@);
                assert forall|k: int|
                    #![trigger drawn[k]]
                    0 <= k < i + 1 && !holds(row.cells@[k].flags@, WIDE_SPACER_BITS) && wants_glyph(
                        row.cells@[k],
                    ) && asks_font(
                        after_cells(v, s, row.cells@, row.index, drawn, k).atlas,
                        cell_key(row.cells@[k]),
                    ) implies font_gives(
                    *font,
                    v.clusters,
                    s.atlas.metrics,
                    cell_key(row.cells@[k]),
                    drawn[k],
                ) by {
                    lemma_drawn_extends(v, s, row.cells@, row.index, before, given@, k);
                    if k < i {
                        assert(drawn[k] == before[k]);
                    }
                }
            }
            i += 1;
        }
        assert(row_drawn(v, s, row.cells@, row.index, *font, drawn, n as int));
    }

    /// Builds instances for one cell, and says in ghost code what the font gave.
    fn build_cell<R: Fn(GlyphKey, Option<&str>) -> Option<Bitmap>>(
        &self,
        cell: &Cell,
        column: u16,
        row: u16,
        default_bg: Rgb,
        atlas: &mut Atlas,
        font: &R,
        out: &mut InstanceBuffers,
    ) -> (given: Ghost<Option<BitmapView>>)
        requires
            self.wf(),
            old(atlas).wf(),
            old(atlas)@.metrics.width * 2 <= u16::MAX,
            default_bg == self.view().material.roles[role_index(Role::Background)],
            forall|key: GlyphKey, text: Option<&str>| #[trigger] call_requires(*font, (key, text)),
        ensures
            final(atlas).wf(),
            final(atlas)@.metrics == old(atlas)@.metrics,
            final(out).gutters == old(out).gutters,
            final(out).quads == old(out).quads,
            final(out).ui_text == old(out).ui_text,
            state_of(*final(atlas), *final(out)) == after_cell(
                self.view(),
                state_of(*old(atlas), *old(out)),
                *cell,
                column,
                row,
                given@,
            ),
            !holds(cell.flags@, WIDE_SPACER_BITS) && wants_glyph(*cell) && asks_font(
                old(atlas)@,
                cell_key(*cell),
            ) ==> font_gives(
                *font,
                self.view().clusters,
                old(atlas)@.metrics,
                cell_key(*cell),
                given@,
            ),
    {
        let ghost v = self.view();
        let ghost s = state_of(*atlas, *out);
        // The trailing half of a wide character has no glyph of its own.
        if cell.flags.contains(CellFlags::wide_spacer()) {
            return Ghost(None);
        }
        let (fg, bg) = resolve_colors(cell, self.material);
        let columns: u8 = columns_of(cell.width);
        if bg != default_bg {
            out.backgrounds.push(
                BgInstance {
                    cell: (column, row),
                    width: columns as u16,
                    color: Rgba::with_alpha(bg, self.alpha),
                },
            );
        }
        assert(out.backgrounds@ =~= s.backgrounds + cell_backgrounds(v, *cell, column, row));
        self.push_rules(cell, column, row, fg, out);
        if cell.content.is_empty() || cell.flags.contains(CellFlags::hidden()) {
            return Ghost(None);
        }
        let style = style_of(cell);
        assert(atlas@.metrics.width * span_columns(columns) <= atlas@.metrics.width * 2)
            by (nonlinear_arith)
            requires
                span_columns(columns) <= 2,
        ;
        let ghost mut given: Option<BitmapView> = None;
        let entry = match cell.content.as_scalar() {
            Some(ch) => {
                let k = GlyphKey { id: GlyphId::Scalar(ch), style, columns };
                let draw = || -> (b: Option<Bitmap>)
                    ensures
                        call_ensures(*font, (k, None::<&str>), b),
                    { font(k, None) };
                let ghost a = atlas@;
                let entry = atlas.glyph(k, draw);
                proof {
                    assert(k == cell_key(*cell));
                    given = pick_given(a, k, draw, (atlas@, entry));
                    if asks_font(a, k) {
                        let b = choose|b: Option<Bitmap>| #[trigger]
                            drawn_for(k, a.metrics, draw, b) && bitmap_view(b) == given;
                        assert(font_answer(*font, v.clusters, a.metrics, k, b));
                    }
                }
                entry
            },
            None => {
                let id: u32 = match cell.content.as_cluster() {
                    Some(i) => i,
                    None => 0,
                };
                let k = GlyphKey { id: GlyphId::Cluster(id), style, columns };
                let text = self.tables.graphemes.get(id);
                let draw = || -> (b: Option<Bitmap>)
                    ensures
                        match text {
                            Some(t) => call_ensures(*font, (k, Some(t)), b),
                            None => b is None,
                        },
                    {
                        match text {
                            Some(t) => font(k, Some(t)),
                            None => None,
                        }
                    };
                let ghost a = atlas@;
                let entry = atlas.glyph(k, draw);
                proof {
                    assert(k == cell_key(*cell));
                    given = pick_given(a, k, draw, (atlas@, entry));
                    if asks_font(a, k) {
                        let b = choose|b: Option<Bitmap>| #[trigger]
                            drawn_for(k, a.metrics, draw, b) && bitmap_view(b) == given;
                        assert(font_answer(*font, v.clusters, a.metrics, k, b));
                    }
                }
                entry
            },
        };
        if let Some(e) = entry {
            if !e.is_blank() {
                out.glyphs.push(glyph_instance(e, column, row, fg, self.alpha));
            }
        }
        Ghost(given)
    }

    /// A cell's rules.
    fn push_rules(&self, cell: &Cell, column: u16, row: u16, fg: Rgb, out: &mut InstanceBuffers)
        requires
            self.wf(),
            fg == cell_colors(*cell, self.view().material).0,
        ensures
            final(out).rules@ == old(out).rules@ + cell_rules(self.view(), *cell, column, row),
            final(out).backgrounds == old(out).backgrounds,
            final(out).glyphs == old(out).glyphs,
            final(out).gutters == old(out).gutters,
            final(out).quads == old(out).quads,
            final(out).ui_text == old(out).ui_text,
    {
        let columns: u16 = columns_of(cell.width) as u16;
        let own = match self.tables.extras.get(cell.extra) {
            Some(e) => e.underline_color,
            None => None,
        };
        let rule = match own {
            Some(c) => self.material.resolve(c, Role::Foreground),
            None => fg,
        };
        let color = Rgba::with_alpha(rule, self.alpha);
        let ghost had = out.rules@;
        let style: u16 = underline_style(cell.flags);
        if style != 0 {
            out.rules.push(
                RuleInstance {
                    cell: (column, row),
                    width: columns,
                    style,
                    offset: self.metrics.underline_position,
                    thickness: self.metrics.underline_thickness,
                    color,
                },
            );
        }
        if cell.flags.contains(CellFlags::strikethrough()) {
            out.rules.push(
                RuleInstance {
                    cell: (column, row),
                    width: columns,
                    style: 1,
                    offset: self.metrics.strikethrough_position,
                    thickness: self.metrics.underline_thickness,
                    color,
                },
            );
        }
        if cell.flags.contains(CellFlags::overline()) {
            out.rules.push(
                RuleInstance {
                    cell: (column, row),
                    width: columns,
                    style: 1,
                    offset: 0,
                    thickness: self.metrics.underline_thickness,
                    color,
                },
            );
        }
        assert(out.rules@ =~= had + cell_rules(self.view(), *cell, column, row));
    }
}

/// The bitmap behind a lookup's result: one that rasterising may give, where the
/// font was asked.
pub(crate) proof fn pick_given<F: FnOnce() -> Option<Bitmap>>(
    a: AtlasView,
    key: GlyphKey,
    draw: F,
    result: (AtlasView, Option<GlyphEntry>),
) -> (given: Option<BitmapView>)
    requires
        if asks_font(a, key) {
            exists|b: Option<Bitmap>| #[trigger]
                drawn_for(key, a.metrics, draw, b) && result == lookup_result(
                    a,
                    key_code(key),
                    bitmap_view(b),
                )
        } else {
            result == lookup_result(a, key_code(key), None)
        },
    ensures
        result == lookup_result(a, key_code(key), given),
        asks_font(a, key) ==> exists|b: Option<Bitmap>| #[trigger]
            drawn_for(key, a.metrics, draw, b) && bitmap_view(b) == given,
{
    if asks_font(a, key) {
        let b = choose|b: Option<Bitmap>| #[trigger]
            drawn_for(key, a.metrics, draw, b) && result == lookup_result(
                a,
                key_code(key),
                bitmap_view(b),
            );
        bitmap_view(b)
    } else {
        None
    }
}

/// What an atlas and buffers hold, as far as a row changes it.
pub open spec fn state_of(atlas: Atlas, out: InstanceBuffers) -> RowState {
    RowState {
        atlas: atlas@,
        backgrounds: out.backgrounds@,
        rules: out.rules@,
        glyphs: out.glyphs@,
    }
}

/// Later bitmaps do not change what earlier cells built.
proof fn lemma_drawn_extends(
    v: RowView,
    s: RowState,
    cells: Seq<Cell>,
    row: u16,
    drawn: Seq<Option<BitmapView>>,
    next: Option<BitmapView>,
    n: int,
)
    requires
        0 <= n <= drawn.len(),
    ensures
        after_cells(v, s, cells, row, drawn.push(next), n) == after_cells(
            v,
            s,
            cells,
            row,
            drawn,
            n,
        ),
    decreases n,
{
    if n > 0 {
        lemma_drawn_extends(v, s, cells, row, drawn, next, n - 1);
        assert(drawn.push(next)[n - 1] == drawn[n - 1]);
    }
}

fn glyph_instance(entry: GlyphEntry, column: u16, row: u16, fg: Rgb, alpha: Fraction) -> (g:
    GlyphInstance)
    requires
        alpha.wf(),
    ensures
        g == glyph_for(entry, column, row, tinted(fg, alpha.level())),
{
    GlyphInstance {
        cell: (column, row),
        offset: (entry.left, entry.top),
        size: (entry.rect.width, entry.rect.height),
        uv_origin: (entry.rect.x, entry.rect.y),
        color: Rgba::with_alpha(fg, alpha),
        page: entry.page,
        flags: match entry.format {
            PixelFormat::Bgra8 => GLYPH_FLAG_COLOR,
            PixelFormat::Alpha8 => 0,
        },
    }
}

/// A row of untouched cells draws nothing at all.
pub proof fn law_blank_rows_draw_nothing(
    v: RowView,
    s: RowState,
    cells: Seq<Cell>,
    row: u16,
    drawn: Seq<Option<BitmapView>>,
    n: int,
)
    requires
        0 <= n <= cells.len(),
        forall|i: int| 0 <= i < cells.len() ==> (#[trigger] cells[i]).is_empty_cell(),
    ensures
        after_cells(v, s, cells, row, drawn, n) == s,
    decreases n,
{
    if n > 0 {
        law_blank_rows_draw_nothing(v, s, cells, row, drawn, n - 1);
        let c = cells[n - 1];
        assert(c.is_empty_cell());
        assert(0u16 & 0x0F00u16 == 0 && 0u16 & 0x0020u16 == 0 && 0u16 & 0x0040u16 == 0 && 0u16
            & 0x0008u16 == 0 && 0u16 & 0x1000u16 == 0) by (bit_vector);
        let after = after_cells(v, s, cells, row, drawn, n);
        assert(cell_rules(v, c, (n - 1) as u16, row) =~= Seq::empty());
        assert(cell_backgrounds(v, c, (n - 1) as u16, row) =~= Seq::empty());
        assert(after.rules =~= s.rules);
        assert(after.backgrounds =~= s.backgrounds);
    }
}

/// The mark of a command block, where any row of it is visible.
pub open spec fn gutter_of(
    b: BlockView,
    first: int,
    visible: u16,
    m: MaterialView,
    metrics: CellMetrics,
) -> Option<GutterInstance> {
    let start = b.start_row as int;
    let end: int = match b.end_row {
        Some(e) => if e > start + 1 {
            e as int
        } else {
            start + 1
        },
        None => start + 1,
    };
    if end <= first || start >= first + visible {
        None
    } else {
        let top = if start > first {
            start - first
        } else {
            0
        };
        let bottom = if end - first < visible {
            end - first
        } else {
            visible as int
        };
        let (role, level): (Role, int) = match b.status {
            BlockStatus::Failed(_) => (Role::Error, 255),
            BlockStatus::Running => (Role::Accent, 230),
            BlockStatus::Succeeded => (Role::Dim, 128),
            BlockStatus::Prompting => (Role::Dim, 77),
            BlockStatus::Unknown => (Role::Dim, 77),
        };
        Some(
            GutterInstance {
                row: top as u16,
                rows: (if bottom - top > 1 {
                    bottom - top
                } else {
                    1
                }) as u16,
                color: tinted(m.roles[role_index(role)], level),
                width: (if 25 * metrics.width > 200 {
                    25 * metrics.width
                } else {
                    200
                }) as u32,
            },
        )
    }
}

/// The marks of the first `n` blocks.
pub open spec fn gutters_of(
    blocks: Seq<BlockView>,
    first: int,
    visible: u16,
    m: MaterialView,
    metrics: CellMetrics,
    n: int,
) -> Seq<GutterInstance>
    decreases n,
{
    if n <= 0 {
        Seq::empty()
    } else {
        let rest = gutters_of(blocks, first, visible, m, metrics, n - 1);
        match gutter_of(blocks[n - 1], first, visible, m, metrics) {
            Some(g) => rest.push(g),
            None => rest,
        }
    }
}

/// Builds the marks of the visible command blocks.
pub fn block_gutters(
    blocks: &[Block],
    first_visible_row: u64,
    visible_rows: u16,
    material: &Material,
    metrics: CellMetrics,
    out: &mut Vec<GutterInstance>,
)
    requires
        material.wf(),
        first_visible_row + visible_rows <= u64::MAX,
        forall|i: int| 0 <= i < blocks@.len() ==> (#[trigger] blocks@[i]).start_row < u64::MAX,
    ensures
        final(out)@ == old(out)@ + gutters_of(
            crate::semantic::block_views(blocks@),
            first_visible_row as int,
            visible_rows,
            material@,
            metrics,
            blocks@.len() as int,
        ),
{
    let quarter: u32 = 25 * metrics.width as u32;
    let width: u32 = if quarter > 200 {
        quarter
    } else {
        200
    };
    let ghost views = crate::semantic::block_views(blocks@);
    let n: usize = blocks.len();
    let mut i: usize = 0;
    assert(out@ =~= old(out)@ + Seq::<GutterInstance>::empty());
    while i < n
        invariant
            i <= n == blocks@.len(),
            material.wf(),
            first_visible_row + visible_rows <= u64::MAX,
            forall|k: int| 0 <= k < blocks@.len() ==> (#[trigger] blocks@[k]).start_row < u64::MAX,
            views == crate::semantic::block_views(blocks@),
            width == if 25 * metrics.width > 200 {
                25 * metrics.width
            } else {
                200
            },
            out@ == old(out)@ + gutters_of(
                views,
                first_visible_row as int,
                visible_rows,
                material@,
                metrics,
                i as int,
            ),
        decreases n - i,
    {
        let ghost sofar = out@;
        let block = &blocks[i];
        assert(views[i as int] == blocks@[i as int]@);
        let start: u64 = block.start_row;
        let end: u64 = match block.end_row {
            Some(e) => if e > start + 1 {
                e
            } else {
                start + 1
            },
            None => start + 1,
        };
        let last_visible: u64 = first_visible_row + visible_rows as u64;
        if end > first_visible_row && start < last_visible {
            let top: u16 = if start > first_visible_row {
                (start - first_visible_row) as u16
            } else {
                0
            };
            let below: u64 = end - first_visible_row;
            let bottom: u16 = if below < visible_rows as u64 {
                below as u16
            } else {
                visible_rows
            };
            let rows: u16 = if bottom > top && bottom - top > 1 {
                bottom - top
            } else {
                1
            };
            let (role, level): (Role, u8) = match block.status {
                BlockStatus::Failed(_) => (Role::Error, 255),
                BlockStatus::Running => (Role::Accent, 230),
                BlockStatus::Succeeded => (Role::Dim, 128),
                BlockStatus::Prompting => (Role::Dim, 77),
                BlockStatus::Unknown => (Role::Dim, 77),
            };
            let c = material.role(role);
            out.push(
                GutterInstance {
                    row: top,
                    rows,
                    color: Rgba { r: c.r, g: c.g, b: c.b, a: level },
                    width,
                },
            );
        }
        assert(out@ =~= old(out)@ + gutters_of(
            views,
            first_visible_row as int,
            visible_rows,
            material@,
            metrics,
            i + 1,
        ));
        i += 1;
    }
}

/// The colours of a cell come through the theme: its own foreground over its own
/// background. Inverse swaps the two, hidden text has the background's colour,
/// dim text stands seven tenths of the way to the background, and neither
/// touches the background.
pub proof fn law_attributes_change_the_colours(cell: Cell, m: MaterialView)
    ensures
        ({
            let (fg, bg) = cell_colors(cell, m);
            let front = resolved(m, cell.fg@, Role::Foreground);
            let back = resolved(m, cell.bg@, Role::Background);
            let inverse = cell.flags@ & 0x0008 != 0;
            let dim = cell.flags@ & 0x0002 != 0;
            let hidden = cell.flags@ & 0x0010 != 0;
            let text = if inverse {
                back
            } else {
                front
            };
            &&& !inverse ==> bg == back
            &&& inverse ==> bg == front
            &&& hidden ==> fg == bg
            &&& !hidden && !dim ==> fg == text
            &&& !hidden && dim ==> is_between(fg, text, bg, 7, 10)
        }),
{
    lemma_single_bits(cell.flags@);
    law_mixing_is_exact_to_half_a_step(
        resolved(m, cell.fg@, Role::Foreground),
        resolved(m, cell.bg@, Role::Background),
        Fraction { num: 7, den: 10 },
    );
    law_mixing_is_exact_to_half_a_step(
        resolved(m, cell.bg@, Role::Background),
        resolved(m, cell.fg@, Role::Foreground),
        Fraction { num: 7, den: 10 },
    );
}

proof fn lemma_single_bits(f: u16)
    ensures
        holds(f, BOLD_BITS) <==> f & 0x0001 != 0,
        holds(f, DIM_BITS) <==> f & 0x0002 != 0,
        holds(f, ITALIC_BITS) <==> f & 0x0004 != 0,
        holds(f, INVERSE_BITS) <==> f & 0x0008 != 0,
        holds(f, HIDDEN_BITS) <==> f & 0x0010 != 0,
        holds(f, STRIKETHROUGH_BITS) <==> f & 0x0020 != 0,
        holds(f, OVERLINE_BITS) <==> f & 0x0040 != 0,
        holds(f, WIDE_SPACER_BITS) <==> f & 0x1000 != 0,
        underline_of(f) == f / 256 % 16 || underline_of(f) == 0,
        underline_of(f) == 0 <==> f / 256 % 16 == 0 || f / 256 % 16 > 5,
{
    assert({
        &&& (f & BOLD_BITS == BOLD_BITS) <==> f & 0x0001 != 0
        &&& (f & DIM_BITS == DIM_BITS) <==> f & 0x0002 != 0
        &&& (f & ITALIC_BITS == ITALIC_BITS) <==> f & 0x0004 != 0
        &&& (f & INVERSE_BITS == INVERSE_BITS) <==> f & 0x0008 != 0
        &&& (f & HIDDEN_BITS == HIDDEN_BITS) <==> f & 0x0010 != 0
        &&& (f & STRIKETHROUGH_BITS == STRIKETHROUGH_BITS) <==> f & 0x0020 != 0
        &&& (f & OVERLINE_BITS == OVERLINE_BITS) <==> f & 0x0040 != 0
        &&& (f & WIDE_SPACER_BITS == WIDE_SPACER_BITS) <==> f & 0x1000 != 0
        &&& (f & UNDERLINE_MASK_BITS) / 256 == f / 256 % 16
    }) by (bit_vector);
}

/// Whether a sequence gained entries at its end.
pub open spec fn extends<T>(before: Seq<T>, after: Seq<T>) -> bool {
    before.is_prefix_of(after)
}

/// What one cell adds to what is drawn stands in that cell: every background,
/// rule and glyph that it adds has the cell's column and the row's number, and is
/// as wide as the cell. The trailing half of a wide character adds nothing.
pub proof fn law_each_cell_is_drawn_in_its_place(
    v: RowView,
    s: RowState,
    cells: Seq<Cell>,
    row: u16,
    drawn: Seq<Option<BitmapView>>,
    k: int,
)
    requires
        0 <= k < cells.len() <= 65536,
    ensures
        ({
            let before = after_cells(v, s, cells, row, drawn, k);
            let after = after_cells(v, s, cells, row, drawn, k + 1);
            let cell = cells[k];
            let wide = if cell.width >= 2 {
                2int
            } else {
                1
            };
            &&& extends(before.backgrounds, after.backgrounds)
            &&& extends(before.rules, after.rules)
            &&& extends(before.glyphs, after.glyphs)
            &&& after.backgrounds.len() <= before.backgrounds.len() + 1
            &&& after.rules.len() <= before.rules.len() + 3
            &&& after.glyphs.len() <= before.glyphs.len() + 1
            &&& forall|i: int|
                before.backgrounds.len() <= i < after.backgrounds.len() ==> {
                    let b = #[trigger] after.backgrounds[i];
                    b.cell.0 == k && b.cell.1 == row && b.width == wide
                }
            &&& forall|i: int|
                before.rules.len() <= i < after.rules.len() ==> {
                    let r = #[trigger] after.rules[i];
                    r.cell.0 == k && r.cell.1 == row && r.width == wide
                }
            &&& forall|i: int|
                before.glyphs.len() <= i < after.glyphs.len() ==> {
                    let g = #[trigger] after.glyphs[i];
                    g.cell.0 == k && g.cell.1 == row
                }
            &&& cell.flags@ & 0x1000 != 0 ==> after == before
        }),
{
    lemma_single_bits(cells[k].flags@);
}

/// All that a row adds to what is drawn has the row's number and the number of
/// one of its columns, and glyphs stand from left to right, no two in one cell.
pub proof fn law_a_row_is_drawn_in_its_row(
    v: RowView,
    s: RowState,
    cells: Seq<Cell>,
    row: u16,
    drawn: Seq<Option<BitmapView>>,
    n: int,
)
    requires
        0 <= n <= cells.len() <= 65536,
    ensures
        ({
            let after = after_cells(v, s, cells, row, drawn, n);
            &&& extends(s.backgrounds, after.backgrounds)
            &&& extends(s.rules, after.rules)
            &&& extends(s.glyphs, after.glyphs)
            &&& forall|i: int|
                s.backgrounds.len() <= i < after.backgrounds.len() ==> (#[trigger]
                after.backgrounds[i]).cell.0 < n && after.backgrounds[i].cell.1 == row
            &&& forall|i: int|
                s.rules.len() <= i < after.rules.len() ==> (#[trigger] after.rules[i]).cell.0 < n
                    && after.rules[i].cell.1 == row
            &&& forall|i: int|
                s.glyphs.len() <= i < after.glyphs.len() ==> (#[trigger] after.glyphs[i]).cell.0 < n
                    && after.glyphs[i].cell.1 == row
            &&& forall|i: int, j: int|
                s.glyphs.len() <= i < j < after.glyphs.len() ==> (#[trigger] after.glyphs[i]).cell.0
                    < (#[trigger] after.glyphs[j]).cell.0
        }),
    decreases n,
{
    if n > 0 {
        law_a_row_is_drawn_in_its_row(v, s, cells, row, drawn, n - 1);
        law_each_cell_is_drawn_in_its_place(v, s, cells, row, drawn, n - 1);
        let before = after_cells(v, s, cells, row, drawn, n - 1);
        let after = after_cells(v, s, cells, row, drawn, n);
        assert forall|i: int| 0 <= i < before.backgrounds.len() implies #[trigger]
            after.backgrounds[i] == before.backgrounds[i] by {}
        assert forall|i: int| 0 <= i < before.rules.len() implies #[trigger] after.rules[i]
            == before.rules[i] by {}
        assert forall|i: int| 0 <= i < before.glyphs.len() implies #[trigger] after.glyphs[i]
            == before.glyphs[i] by {}
        assert(s.backgrounds.is_prefix_of(after.backgrounds)) by {
            assert(s.backgrounds =~= after.backgrounds.subrange(0, s.backgrounds.len() as int));
        }
        assert(s.rules.is_prefix_of(after.rules)) by {
            assert(s.rules =~= after.rules.subrange(0, s.rules.len() as int));
        }
        assert(s.glyphs.is_prefix_of(after.glyphs)) by {
            assert(s.glyphs =~= after.glyphs.subrange(0, s.glyphs.len() as int));
        }
    }
}

/// A cell is drawn with the glyph that the atlas holds for it: its pixels are
/// taken from where they lie on their page, at their size, moved by the glyph's
/// own offset, in the text's colour, and only colour pages are left untinted. A
/// cell without a character, or with hidden text, has none.
pub proof fn law_a_glyph_is_taken_from_its_place(
    v: RowView,
    s: RowState,
    cell: Cell,
    column: u16,
    row: u16,
    drawn: Option<BitmapView>,
)
    requires
        cell.flags@ & 0x1000 == 0,
        v.alpha.wf(),
    ensures
        ({
            let after = after_cell(v, s, cell, column, row, drawn);
            let shown = cell.content@ != ContentView::Scalar(' ') && cell.content@
                != ContentView::Scalar('\0') && cell.flags@ & 0x0010 == 0;
            let key = GlyphKey {
                id: match cell.content@ {
                    ContentView::Scalar(c) => GlyphId::Scalar(c),
                    ContentView::Cluster(i) => GlyphId::Cluster(i),
                    ContentView::Unassigned(_) => GlyphId::Cluster(0),
                },
                style: Style {
                    bold: cell.flags@ & 0x0001 != 0,
                    italic: cell.flags@ & 0x0004 != 0,
                },
                columns: if cell.width >= 2 {
                    2
                } else {
                    1
                },
            };
            let (atlas, entry) = lookup_result(s.atlas, key_code(key), drawn);
            &&& !shown ==> after.glyphs == s.glyphs && after.atlas == s.atlas
            &&& shown ==> after.atlas == atlas
            &&& shown && (entry is None || entry->0.rect.width == 0 || entry->0.rect.height == 0)
                ==> after.glyphs == s.glyphs
            &&& shown && entry is Some && entry->0.rect.width > 0 && entry->0.rect.height > 0 ==> {
                let e = entry->0;
                let g = after.glyphs.last();
                let fg = cell_colors(cell, v.material).0;
                &&& after.glyphs.len() == s.glyphs.len() + 1
                &&& g.cell == (column, row)
                &&& g.offset == (e.left, e.top)
                &&& g.size == (e.rect.width, e.rect.height)
                &&& g.uv_origin == (e.rect.x, e.rect.y)
                &&& g.page == e.page
                &&& g.flags == 1 <==> e.format == PixelFormat::Bgra8
                &&& g.flags == 0 <==> e.format == PixelFormat::Alpha8
                &&& g.color.r == fg.r && g.color.g == fg.g && g.color.b == fg.b
                &&& v.alpha.num == v.alpha.den ==> g.color.a == 255
                &&& v.alpha.num == 0 ==> g.color.a == 0
            }
        }),
{
    lemma_single_bits(cell.flags@);
    if v.alpha.num <= v.alpha.den {
        law_levels_are_exact_to_half_a_step(v.alpha);
    }
    assert(cell_columns(cell.width) == if cell.width >= 2 {
        2u8
    } else {
        1u8
    });
}

/// A cell has a background exactly where it is not the theme's own, in the
/// cell's background colour.
pub proof fn law_backgrounds_are_drawn_where_they_differ(
    v: RowView,
    cell: Cell,
    column: u16,
    row: u16,
)
    requires
        v.alpha.wf(),
    ensures
        ({
            let bg = cell_colors(cell, v.material).1;
            let b = cell_backgrounds(v, cell, column, row);
            &&& b.len() == 0 <==> bg == v.material.roles[0]
            &&& b.len() <= 1
            &&& b.len() == 1 ==> {
                &&& b[0].color.r == bg.r && b[0].color.g == bg.g && b[0].color.b == bg.b
                &&& v.alpha.num == v.alpha.den ==> b[0].color.a == 255
                &&& v.alpha.num == 0 ==> b[0].color.a == 0
            }
        }),
{
    if v.alpha.num <= v.alpha.den {
        law_levels_are_exact_to_half_a_step(v.alpha);
    }
}

/// A cell has a rule for its underline, in the style that its flags number from
/// single to dashed, one through its middle where it is struck through, and one
/// along its top where it is overlined, and no others. They have the text's
/// colour unless the cell has one of its own for them.
pub proof fn law_rules_are_drawn_where_they_are_asked_for(
    v: RowView,
    cell: Cell,
    column: u16,
    row: u16,
)
    requires
        v.alpha.wf(),
    ensures
        ({
            let rules = cell_rules(v, cell, column, row);
            let style = cell.flags@ / 256 % 16;
            let u = if 1 <= style <= 5 {
                1int
            } else {
                0
            };
            let t = if cell.flags@ & 0x0020 != 0 {
                1int
            } else {
                0
            };
            let o = if cell.flags@ & 0x0040 != 0 {
                1int
            } else {
                0
            };
            let own = 1 <= cell.extra <= v.extras.len() && v.extras[cell.extra
                - 1].underline_color is Some;
            let c = if own {
                resolved(
                    v.material,
                    v.extras[cell.extra - 1].underline_color->0@,
                    Role::Foreground,
                )
            } else {
                cell_colors(cell, v.material).0
            };
            &&& rules.len() == u + t + o
            &&& u == 1 ==> rules[0].style == style && rules[0].offset
                == v.metrics.underline_position
            &&& t == 1 ==> rules[u].style == 1 && rules[u].offset
                == v.metrics.strikethrough_position
            &&& o == 1 ==> rules[u + t].style == 1 && rules[u + t].offset == 0
            &&& forall|i: int|
                0 <= i < rules.len() ==> {
                    let r = #[trigger] rules[i];
                    &&& r.cell == (column, row)
                    &&& r.thickness == v.metrics.underline_thickness
                    &&& r.color.r == c.r && r.color.g == c.g && r.color.b == c.b
                    &&& v.alpha.num == v.alpha.den ==> r.color.a == 255
                    &&& v.alpha.num == 0 ==> r.color.a == 0
                }
        }),
{
    lemma_single_bits(cell.flags@);
    if v.alpha.num <= v.alpha.den {
        law_levels_are_exact_to_half_a_step(v.alpha);
    }
}

/// A command block is marked along those of its rows that are seen, in a colour
/// that tells how it ended: a failure stands out in full, a running one nearly
/// so, and the others recede. A block without an end covers one row.
pub proof fn law_marks_run_along_their_blocks(
    b: BlockView,
    first: int,
    visible: u16,
    m: MaterialView,
    metrics: CellMetrics,
    r: int,
)
    requires
        first >= 0,
        0 <= r < visible,
    ensures
        ({
            let end = if b.end_row is Some && b.end_row->0 > b.start_row {
                b.end_row->0 as int
            } else {
                b.start_row + 1
            };
            let g = gutter_of(b, first, visible, m, metrics);
            &&& g is Some <==> b.start_row < first + visible && first < end
            &&& g matches Some(g) ==> {
                &&& g.rows >= 1
                &&& g.row + g.rows <= visible
                &&& g.row <= r < g.row + g.rows <==> b.start_row <= first + r < end
                &&& 4 * g.width >= 100 * metrics.width
                &&& g.width >= 200
                &&& g.width == 200 || 4 * g.width == 100 * metrics.width
                &&& b.status is Failed ==> g.color == (Rgba {
                    r: m.roles[6].r,
                    g: m.roles[6].g,
                    b: m.roles[6].b,
                    a: 255,
                })
                &&& b.status is Running ==> g.color == (Rgba {
                    r: m.roles[3].r,
                    g: m.roles[3].g,
                    b: m.roles[3].b,
                    a: 230,
                })
                &&& b.status is Succeeded ==> g.color == (Rgba {
                    r: m.roles[2].r,
                    g: m.roles[2].g,
                    b: m.roles[2].b,
                    a: 128,
                })
                &&& b.status is Prompting || b.status is Unknown ==> g.color == (Rgba {
                    r: m.roles[2].r,
                    g: m.roles[2].g,
                    b: m.roles[2].b,
                    a: 77,
                })
            }
        }),
{
}

/// Every block that is seen has its mark, in the order of the blocks.
pub proof fn law_every_seen_block_has_its_mark(
    blocks: Seq<BlockView>,
    first: int,
    visible: u16,
    m: MaterialView,
    metrics: CellMetrics,
    n: int,
)
    requires
        0 <= n < blocks.len(),
    ensures
        ({
            let before = gutters_of(blocks, first, visible, m, metrics, n);
            let after = gutters_of(blocks, first, visible, m, metrics, n + 1);
            match gutter_of(blocks[n], first, visible, m, metrics) {
                Some(g) => after == before.push(g),
                None => after == before,
            }
        }),
        gutters_of(blocks, first, visible, m, metrics, 0) == Seq::<GutterInstance>::empty(),
{
}

/// Bold and italic name the face that a cell is drawn with.
pub proof fn law_faces_are_named_by_flags(flags: u16)
    ensures
        cell_style(flags).bold <==> flags & 0x0001 != 0,
        cell_style(flags).italic <==> flags & 0x0004 != 0,
{
    lemma_single_bits(flags);
}

} // verus!
