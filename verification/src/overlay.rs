//! What the overlays share: a text field, their measures, and laying out text.
//!
//! Overlays are drawn beside the grid rather than on it. Their text stands
//! anywhere, not only in cells, but its glyphs come from the same atlas. Lengths
//! are in hundredths of a pixel unless they say otherwise.

use vstd::prelude::*;

use crate::atlas::{drawn_for, key_code, lookup_result, Atlas, AtlasView, GlyphId, GlyphKey};
use crate::fontset::Style;
use crate::grid::{
    asks_font, font_answer, font_gives, pick_given, tinted, InstanceBuffers, QuadInstance, Rgba,
    UiTextInstance, GLYPH_FLAG_COLOR,
};
use crate::material::{lerped, role_index, Fraction, Material, MaterialView, Rgb, Role};
use crate::raster::{bitmap_view, nearest, span_columns, Bitmap, BitmapView, PixelFormat};
use crate::text::{chars_of, string_of};

verus! {

/// What a text field holds.
#[verifier::ext_equal]
pub struct FieldView {
    pub text: Seq<char>,
    /// In characters.
    pub caret: int,
}

impl FieldView {
    /// Whether the caret is inside the text.
    pub open spec fn wf(self) -> bool {
        0 <= self.caret <= self.text.len()
    }

    /// With a character typed at the caret.
    pub open spec fn typed(self, ch: char) -> FieldView {
        FieldView { text: self.text.insert(self.caret, ch), caret: self.caret + 1 }
    }

    /// With a text typed at the caret.
    pub open spec fn typed_all(self, text: Seq<char>) -> FieldView {
        FieldView {
            text: self.text.take(self.caret) + text + self.text.skip(self.caret),
            caret: self.caret + text.len(),
        }
    }

    /// Without the character before the caret.
    pub open spec fn erased(self) -> FieldView {
        if self.caret == 0 {
            self
        } else {
            FieldView { text: self.text.remove(self.caret - 1), caret: self.caret - 1 }
        }
    }
}

/// A line of text to edit, with a caret. No selection and no undo: a query field
/// is not a text editor.
#[derive(Debug, Clone, PartialEq, Eq)]
pub struct TextField {
    text: String,
    caret: usize,
}

impl View for TextField {
    type V = FieldView;

    closed spec fn view(&self) -> FieldView {
        FieldView { text: self.text@, caret: self.caret as int }
    }
}

impl TextField {
    pub open spec fn wf(self) -> bool {
        self@.wf()
    }

    pub fn new() -> (f: TextField)
        ensures
            f.wf(),
            f@.text.len() == 0,
            f@.caret == 0,
    {
        TextField { text: String::new(), caret: 0 }
    }

    pub fn text(&self) -> (t: &str)
        ensures
            t@ == self@.text,
    {
        self.text.as_str()
    }

    pub fn caret(&self) -> (c: usize)
        ensures
            c == self@.caret,
    {
        self.caret
    }

    pub fn is_empty(&self) -> (yes: bool)
        ensures
            yes == (self@.text.len() == 0),
    {
        chars_of(self.text.as_str()).len() == 0
    }

    pub fn clear(&mut self)
        ensures
            final(self).wf(),
            final(self)@.text.len() == 0,
            final(self)@.caret == 0,
    {
        self.text = String::new();
        self.caret = 0;
    }

    /// Replaces the text, with the caret at its end.
    pub fn set(&mut self, text: &str)
        ensures
            final(self).wf(),
            final(self)@.text == text@,
            final(self)@.caret == text@.len(),
    {
        self.text = text.to_owned();
        self.caret = chars_of(text).len();
    }

    /// Types a character at the caret.
    pub fn insert(&mut self, ch: char)
        requires
            old(self).wf(),
        ensures
            final(self).wf(),
            final(self)@ == old(self)@.typed(ch),
    {
        let mut chars = chars_of(self.text.as_str());
        chars.insert(self.caret, ch);
        let n: usize = chars.len();
        self.text = string_of(&chars, 0, n);
        self.caret = self.caret + 1;
        assert(self@.text =~= old(self)@.text.insert(old(self)@.caret, ch));
    }

    /// Types a text at the caret.
    pub fn insert_str(&mut self, text: &str)
        requires
            old(self).wf(),
        ensures
            final(self).wf(),
            final(self)@ == old(self)@.typed_all(text@),
    {
        let typed = chars_of(text);
        let n: usize = typed.len();
        let mut i: usize = 0;
        assert(self@ =~= old(self)@.typed_all(typed@.take(0)));
        while i < n
            invariant
                i <= n == typed@.len(),
                old(self).wf(),
                self.wf(),
                self@ == old(self)@.typed_all(typed@.take(i as int)),
            decreases n - i,
        {
            self.insert(typed[i]);
            assert(self@ =~= old(self)@.typed_all(typed@.take(i + 1)));
            i += 1;
        }
        assert(typed@.take(n as int) =~= text@);
    }

    /// Deletes the character before the caret, and says whether there was one.
    pub fn backspace(&mut self) -> (moved: bool)
        requires
            old(self).wf(),
        ensures
            final(self).wf(),
            final(self)@ == old(self)@.erased(),
            moved == (old(self)@.caret > 0),
    {
        if self.caret == 0 {
            return false;
        }
        let mut chars = chars_of(self.text.as_str());
        let _gone = chars.remove(self.caret - 1);
        let n: usize = chars.len();
        self.text = string_of(&chars, 0, n);
        self.caret = self.caret - 1;
        assert(self@.text =~= old(self)@.text.remove(old(self)@.caret - 1));
        true
    }

    /// Deletes the character after the caret, and says whether there was one.
    pub fn delete_forward(&mut self) -> (moved: bool)
        requires
            old(self).wf(),
        ensures
            final(self).wf(),
            final(self)@.caret == old(self)@.caret,
            moved == (old(self)@.caret < old(self)@.text.len()),
            final(self)@.text == if moved {
                old(self)@.text.remove(old(self)@.caret)
            } else {
                old(self)@.text
            },
    {
        let mut chars = chars_of(self.text.as_str());
        if self.caret >= chars.len() {
            return false;
        }
        let _gone = chars.remove(self.caret);
        let n: usize = chars.len();
        self.text = string_of(&chars, 0, n);
        assert(self@.text =~= old(self)@.text.remove(old(self)@.caret));
        true
    }

    pub fn move_left(&mut self) -> (moved: bool)
        requires
            old(self).wf(),
        ensures
            final(self).wf(),
            final(self)@.text == old(self)@.text,
            moved == (old(self)@.caret > 0),
            final(self)@.caret == if moved {
                old(self)@.caret - 1
            } else {
                old(self)@.caret
            },
    {
        if self.caret == 0 {
            return false;
        }
        self.caret = self.caret - 1;
        true
    }

    pub fn move_right(&mut self) -> (moved: bool)
        requires
            old(self).wf(),
        ensures
            final(self).wf(),
            final(self)@.text == old(self)@.text,
            moved == (old(self)@.caret < old(self)@.text.len()),
            final(self)@.caret == if moved {
                old(self)@.caret + 1
            } else {
                old(self)@.caret
            },
    {
        if self.caret >= chars_of(self.text.as_str()).len() {
            return false;
        }
        self.caret = self.caret + 1;
        true
    }

    pub fn move_home(&mut self)
        ensures
            final(self).wf(),
            final(self)@.text == old(self)@.text,
            final(self)@.caret == 0,
    {
        self.caret = 0;
    }

    pub fn move_end(&mut self)
        ensures
            final(self).wf(),
            final(self)@.text == old(self)@.text,
            final(self)@.caret == old(self)@.text.len(),
    {
        self.caret = chars_of(self.text.as_str()).len();
    }
}

impl Default for TextField {
    fn default() -> (f: TextField)
        ensures
            f.wf(),
            f@.text.len() == 0,
            f@.caret == 0,
    {
        TextField::new()
    }
}

/// Backspace takes back what was typed.
pub proof fn law_backspace_undoes_typing(f: FieldView, ch: char)
    requires
        f.wf(),
    ensures
        f.typed(ch).wf(),
        f.typed(ch).erased() == f,
{
    assert(f.typed(ch).erased().text =~= f.text);
}

/// The overlays' measures, in pixels.
#[derive(Debug, Clone, Copy, PartialEq, Eq)]
pub struct OverlayMetrics {
    pub viewport: (u32, u32),
    pub cell_width: u16,
    pub cell_height: u16,
    pub baseline: u16,
}

impl OverlayMetrics {
    pub fn from_atlas(atlas: &Atlas, viewport: (u32, u32)) -> (m: OverlayMetrics)
        ensures
            m.viewport == viewport,
            m.cell_width == atlas@.metrics.width,
            m.cell_height == atlas@.metrics.height,
            m.baseline == atlas@.metrics.baseline,
    {
        let m = atlas.metrics();
        OverlayMetrics {
            viewport,
            cell_width: m.width,
            cell_height: m.height,
            baseline: m.baseline,
        }
    }

    /// The height of a row, in pixels.
    pub open spec fn row(self) -> int {
        nearest(16 * self.cell_height, 10)
    }

    /// The space around what an overlay shows, in pixels.
    pub open spec fn pad(self) -> int {
        nearest(3 * self.cell_width, 2)
    }

    /// A row's height in pixels: taller than in the grid, since a list is
    /// scanned.
    pub fn row_height(&self) -> (h: u32)
        ensures
            h == self.row(),
            h <= 104856,
    {
        (2 * 16 * self.cell_height as u32 + 10) / 20
    }

    pub fn padding(&self) -> (p: u32)
        ensures
            p == self.pad(),
            p <= 98303,
    {
        (2 * 3 * self.cell_width as u32 + 2) / 4
    }
}

/// How far from the corner anything is drawn: far more than text of any length
/// reaches.
pub const REACH: i128 = 1267650600228229401496703205376;

/// Whether a place can be drawn at.
pub open spec fn in_reach(p: (i128, i128)) -> bool {
    -REACH <= p.0 <= REACH && -REACH <= p.1 <= REACH
}

/// The width of a text of `n` characters.
pub open spec fn width_of(n: int, cell_width: u16) -> int {
    n * (100 * cell_width)
}

/// The width of a text, which is a cell for each character.
pub fn text_width(text: &str, metrics: OverlayMetrics) -> (w: i128)
    ensures
        w == width_of(text@.len() as int, metrics.cell_width),
        0 <= w <= 0x1_0000_0000_0000_0000 * 6553500,
{
    let n: usize = chars_of(text).len();
    cells_wide(n, metrics.cell_width)
}

pub(crate) fn cells_wide(n: usize, cell_width: u16) -> (w: i128)
    ensures
        w == width_of(n as int, cell_width),
        0 <= w <= 0x1_0000_0000_0000_0000 * 6553500,
{
    assert(0 <= n * (100 * cell_width) <= 0x1_0000_0000_0000_0000 * 6553500) by (nonlinear_arith)
        requires
            0 <= n <= 0x1_0000_0000_0000_0000,
            0 <= cell_width <= 65535,
    ;
    n as i128 * (100 * cell_width as i128)
}

/// A part of an alpha in percent, as a level.
pub open spec fn share(alpha: Fraction, percent: int) -> int {
    let whole = 100 * alpha.den;
    let part = if alpha.num * percent > whole {
        whole
    } else {
        alpha.num * percent
    };
    nearest(255 * part, whole)
}

fn level_of(alpha: Fraction, percent: u32) -> (l: u8)
    requires
        alpha.wf(),
        percent <= 100,
    ensures
        l == share(alpha, percent as int),
{
    let whole: u64 = 100 * alpha.den as u64;
    assert(alpha.num * percent <= 100 * alpha.num) by (nonlinear_arith)
        requires
            percent <= 100,
    ;
    let wanted: u64 = alpha.num as u64 * percent as u64;
    let part: u64 = if wanted > whole {
        whole
    } else {
        wanted
    };
    let l: u64 = (2 * (255 * part) + whole) / (2 * whole);
    assert(l <= 255) by (nonlinear_arith)
        requires
            part <= whole,
            whole > 0,
            l == (2 * (255 * part) + whole) / (2 * whole as int),
    ;
    l as u8
}

/// The panel that an overlay stands on: the background, slightly raised.
pub open spec fn panel_of(
    origin: (i128, i128),
    size: (i128, i128),
    m: MaterialView,
    alpha: Fraction,
) -> QuadInstance {
    let background = m.roles[role_index(Role::Background)];
    let dim = m.roles[role_index(Role::Dim)];
    QuadInstance {
        origin,
        size,
        fill: tinted(
            lerped(background, dim, Fraction { num: 4, den: 25 }),
            share(alpha, 98),
        ),
        border: tinted(dim, share(alpha, 50)),
        radius: 1000,
        border_width: 100,
    }
}

pub fn panel(origin: (i128, i128), size: (i128, i128), material: &Material, alpha: Fraction) -> (q:
    QuadInstance)
    requires
        material.wf(),
        alpha.wf(),
    ensures
        q == panel_of(origin, size, material@, alpha),
{
    let background = material.role(Role::Background);
    let dim = material.role(Role::Dim);
    let raised = background.lerp(dim, Fraction { num: 4, den: 25 });
    QuadInstance {
        origin,
        size,
        fill: Rgba { r: raised.r, g: raised.g, b: raised.b, a: level_of(alpha, 98) },
        border: Rgba { r: dim.r, g: dim.g, b: dim.b, a: level_of(alpha, 50) },
        radius: 1000,
        border_width: 100,
    }
}

/// A plain rectangle.
pub open spec fn fill_of(
    origin: (i128, i128),
    size: (i128, i128),
    color: Rgb,
    alpha: Fraction,
) -> QuadInstance {
    QuadInstance {
        origin,
        size,
        fill: tinted(color, alpha.level()),
        border: Rgba { r: 0, g: 0, b: 0, a: 0 },
        radius: 300,
        border_width: 0,
    }
}

/// A plain rectangle, for selected rows and for matches.
pub fn fill(origin: (i128, i128), size: (i128, i128), color: Rgb, alpha: Fraction) -> (q:
    QuadInstance)
    requires
        alpha.wf(),
    ensures
        q == fill_of(origin, size, color, alpha),
{
    QuadInstance {
        origin,
        size,
        fill: Rgba::with_alpha(color, alpha),
        border: Rgba { r: 0, g: 0, b: 0, a: 0 },
        radius: 300,
        border_width: 0,
    }
}

/// A text at a place.
#[verifier::ext_equal]
pub struct RunView {
    pub text: Seq<char>,
    pub origin: (i128, i128),
    pub color: Rgb,
    pub alpha: Fraction,
    pub style: Style,
}

/// A text at a place, its corner at the origin.
#[derive(Debug)]
pub struct TextRun {
    pub text: String,
    pub origin: (i128, i128),
    pub color: Rgb,
    pub alpha: Fraction,
    pub style: Style,
}

impl View for TextRun {
    type V = RunView;

    open spec fn view(&self) -> RunView {
        RunView {
            text: self.text@,
            origin: self.origin,
            color: self.color,
            alpha: self.alpha,
            style: self.style,
        }
    }
}

impl TextRun {
    pub open spec fn wf(self) -> bool {
        in_reach(self.origin) && self.alpha.wf()
    }

    /// A text in the regular face.
    pub(crate) fn plain(text: &str, origin: (i128, i128), color: Rgb) -> (r: TextRun)
        requires
            in_reach(origin),
        ensures
            r.wf(),
            r@ == plain_run(text@, origin, color),
    {
        TextRun {
            text: text.to_owned(),
            origin,
            color,
            alpha: Fraction { num: 1, den: 1 },
            style: Style { bold: false, italic: false },
        }
    }
}

/// A text in the regular face.
pub open spec fn plain_run(text: Seq<char>, origin: (i128, i128), color: Rgb) -> RunView {
    RunView {
        text,
        origin,
        color,
        alpha: Fraction { num: 1, den: 1 },
        style: Style { bold: false, italic: false },
    }
}

/// What an overlay shows.
#[verifier::ext_equal]
pub struct DrawingView {
    pub quads: Seq<QuadInstance>,
    pub runs: Seq<RunView>,
}

/// What an overlay shows: rectangles, and the texts over them.
#[derive(Debug)]
pub struct Drawing {
    pub quads: Vec<QuadInstance>,
    pub runs: Vec<TextRun>,
}

/// What runs show.
pub open spec fn run_views(runs: Seq<TextRun>) -> Seq<RunView> {
    runs.map_values(|r: TextRun| r@)
}

impl View for Drawing {
    type V = DrawingView;

    open spec fn view(&self) -> DrawingView {
        DrawingView { quads: self.quads@, runs: run_views(self.runs@) }
    }
}

impl Drawing {
    pub open spec fn wf(self) -> bool {
        forall|i: int| 0 <= i < self.runs@.len() ==> (#[trigger] self.runs@[i]).wf()
    }

    pub(crate) fn new() -> (d: Drawing)
        ensures
            d.wf(),
            d@ == (DrawingView { quads: Seq::empty(), runs: Seq::empty() }),
    {
        let d = Drawing { quads: Vec::new(), runs: Vec::new() };
        assert(d@.runs =~= Seq::empty());
        d
    }

    pub(crate) fn push_run(&mut self, run: TextRun)
        requires
            old(self).wf(),
            run.wf(),
        ensures
            final(self).wf(),
            final(self).quads == old(self).quads,
            final(self)@.runs == old(self)@.runs.push(run@),
    {
        self.runs.push(run);
        assert(self@.runs =~= old(self)@.runs.push(run@));
    }
}

/// A character of an overlay's text.
#[derive(Debug, Clone, Copy, PartialEq, Eq)]
pub struct Placed {
    pub ch: char,
    pub origin: (i128, i128),
    pub color: Rgba,
    pub style: Style,
}

/// The `k`th character of a run, a cell after the one before.
pub open spec fn placed_char(run: RunView, cell_width: u16, k: int) -> Placed {
    Placed {
        ch: run.text[k],
        origin: ((run.origin.0 + width_of(k, cell_width)) as i128, run.origin.1),
        color: tinted(run.color, run.alpha.level()),
        style: run.style,
    }
}

/// The characters of a run.
pub open spec fn placed_run(run: RunView, cell_width: u16) -> Seq<Placed> {
    Seq::new(run.text.len(), |k: int| placed_char(run, cell_width, k))
}

/// The characters of the first `n` runs.
pub open spec fn placed_runs(runs: Seq<RunView>, cell_width: u16, n: int) -> Seq<Placed>
    decreases n,
{
    if n <= 0 {
        Seq::empty()
    } else {
        placed_runs(runs, cell_width, n - 1) + placed_run(runs[n - 1], cell_width)
    }
}

/// Whether characters can be drawn.
pub open spec fn placeable(p: Seq<Placed>) -> bool {
    forall|i: int| 0 <= i < p.len() ==> room((#[trigger] p[i]).origin)
}

/// Whether a place leaves room for a glyph's own offset.
pub open spec fn room(p: (i128, i128)) -> bool {
    -2 * REACH <= p.0 <= 2 * REACH && -2 * REACH <= p.1 <= 2 * REACH
}

/// Appends the characters of a text.
fn place(
    text: &str,
    origin: (i128, i128),
    color: Rgb,
    alpha: Fraction,
    style: Style,
    cell_width: u16,
    out: &mut Vec<Placed>,
)
    requires
        in_reach(origin),
        alpha.wf(),
        placeable(old(out)@),
    ensures
        placeable(final(out)@),
        final(out)@ == old(out)@ + placed_run(
            (RunView { text: text@, origin, color, alpha, style }),
            cell_width,
        ),
{
    let ghost run = RunView { text: text@, origin, color, alpha, style };
    let chars = chars_of(text);
    let n: usize = chars.len();
    let tint = Rgba::with_alpha(color, alpha);
    let mut k: usize = 0;
    assert(out@ =~= old(out)@ + placed_run(run, cell_width).take(0));
    while k < n
        invariant
            k <= n == chars@.len(),
            chars@ == text@,
            run == (RunView { text: text@, origin, color, alpha, style }),
            tint == tinted(color, alpha.level()),
            in_reach(origin),
            placeable(out@),
            out@ == old(out)@ + placed_run(run, cell_width).take(k as int),
        decreases n - k,
    {
        let ghost had = out@;
        let ahead: i128 = cells_wide(k, cell_width);
        out.push(
            Placed { ch: chars[k], origin: (origin.0 + ahead, origin.1), color: tint, style },
        );
        assert(out@.last() == placed_char(run, cell_width, k as int));
        assert(out@ =~= old(out)@ + placed_run(run, cell_width).take(k + 1));
        k += 1;
    }
    assert(placed_run(run, cell_width).take(n as int) =~= placed_run(run, cell_width));
}

/// What has been laid out, and the atlas that the glyphs came from.
#[verifier::ext_equal]
pub struct TextState {
    pub atlas: AtlasView,
    pub out: Seq<UiTextInstance>,
}

/// The glyph of a character of an overlay.
pub open spec fn placed_key(p: Placed) -> GlyphKey {
    GlyphKey { id: GlyphId::Scalar(p.ch), style: p.style, columns: 1 }
}

/// After one more character, whose glyph the font gives as `drawn` if it is
/// asked. A space leaves everything as it is.
pub open spec fn after_char(s: TextState, p: Placed, drawn: Option<BitmapView>) -> TextState {
    if p.ch == ' ' {
        s
    } else {
        let (atlas, entry) = lookup_result(s.atlas, key_code(placed_key(p)), drawn);
        TextState {
            atlas,
            out: match entry {
                Some(e) => if e.blank() {
                    s.out
                } else {
                    s.out.push(
                        UiTextInstance {
                            origin: (
                                (p.origin.0 + 100 * e.left) as i128,
                                (p.origin.1 + 100 * e.top) as i128,
                            ),
                            size: (e.rect.width, e.rect.height),
                            uv_origin: (e.rect.x, e.rect.y),
                            color: p.color,
                            page: e.page,
                            flags: if e.format is Bgra8 {
                                GLYPH_FLAG_COLOR
                            } else {
                                0
                            },
                        },
                    )
                },
                None => s.out,
            },
        }
    }
}

/// After the first `n` characters.
pub open spec fn after_chars(
    s: TextState,
    p: Seq<Placed>,
    drawn: Seq<Option<BitmapView>>,
    n: int,
) -> TextState
    decreases n,
{
    if n <= 0 {
        s
    } else {
        after_char(after_chars(s, p, drawn, n - 1), p[n - 1], drawn[n - 1])
    }
}

/// Whether every bitmap that was needed is one that the font may give.
pub open spec fn text_drawn<R: Fn(GlyphKey, Option<&str>) -> Option<Bitmap>>(
    s: TextState,
    p: Seq<Placed>,
    font: R,
    drawn: Seq<Option<BitmapView>>,
    n: int,
) -> bool {
    &&& drawn.len() == n
    &&& forall|i: int|
        #![trigger drawn[i]]
        0 <= i < n && p[i].ch != ' ' && asks_font(
            after_chars(s, p, drawn, i).atlas,
            placed_key(p[i]),
        ) ==> font_gives(font, Seq::empty(), s.atlas.metrics, placed_key(p[i]), drawn[i])
}

/// Whether laying out characters leads from one state to another, with glyphs
/// that the font may give.
pub open spec fn laid_out<R: Fn(GlyphKey, Option<&str>) -> Option<Bitmap>>(
    s: TextState,
    p: Seq<Placed>,
    font: R,
    result: TextState,
) -> bool {
    exists|drawn: Seq<Option<BitmapView>>| #[trigger]
        text_drawn(s, p, font, drawn, p.len() as int) && result == after_chars(
            s,
            p,
            drawn,
            p.len() as int,
        )
}

proof fn lemma_chars_extend(
    s: TextState,
    p: Seq<Placed>,
    drawn: Seq<Option<BitmapView>>,
    next: Option<BitmapView>,
    n: int,
)
    requires
        0 <= n <= drawn.len(),
    ensures
        after_chars(s, p, drawn.push(next), n) == after_chars(s, p, drawn, n),
    decreases n,
{
    if n > 0 {
        lemma_chars_extend(s, p, drawn, next, n - 1);
        assert(drawn.push(next)[n - 1] == drawn[n - 1]);
    }
}

/// Lays out one character, and says in ghost code what the font gave.
fn draw_char<R: Fn(GlyphKey, Option<&str>) -> Option<Bitmap>>(
    p: Placed,
    atlas: &mut Atlas,
    font: &R,
    out: &mut Vec<UiTextInstance>,
) -> (given: Ghost<Option<BitmapView>>)
    requires
        old(atlas).wf(),
        room(p.origin),
        forall|key: GlyphKey, text: Option<&str>| #[trigger] call_requires(*font, (key, text)),
    ensures
        final(atlas).wf(),
        final(atlas)@.metrics == old(atlas)@.metrics,
        (TextState { atlas: final(atlas)@, out: final(out)@ }) == after_char(
            (TextState { atlas: old(atlas)@, out: old(out)@ }),
            p,
            given@,
        ),
        p.ch != ' ' && asks_font(old(atlas)@, placed_key(p)) ==> font_gives(
            *font,
            Seq::empty(),
            old(atlas)@.metrics,
            placed_key(p),
            given@,
        ),
{
    if p.ch == ' ' {
        return Ghost(None);
    }
    let k = GlyphKey { id: GlyphId::Scalar(p.ch), style: p.style, columns: 1 };
    let draw = || -> (b: Option<Bitmap>)
        ensures
            call_ensures(*font, (k, None::<&str>), b),
        { font(k, None) };
    let ghost a = atlas@;
    assert(a.metrics.width * span_columns(1) == a.metrics.width) by (nonlinear_arith)
        requires
            span_columns(1) == 1,
    ;
    let entry = atlas.glyph(k, draw);
    let ghost mut given: Option<BitmapView> = None;
    proof {
        given = pick_given(a, k, draw, (atlas@, entry));
        if asks_font(a, k) {
            let b = choose|b: Option<Bitmap>| #[trigger]
                drawn_for(k, a.metrics, draw, b) && bitmap_view(b) == given;
            assert(font_answer(*font, Seq::empty(), a.metrics, k, b));
        }
    }
    if let Some(e) = entry {
        if !e.is_blank() {
            out.push(
                UiTextInstance {
                    origin: (
                        p.origin.0 + 100 * e.left as i128,
                        p.origin.1 + 100 * e.top as i128,
                    ),
                    size: (e.rect.width, e.rect.height),
                    uv_origin: (e.rect.x, e.rect.y),
                    color: p.color,
                    page: e.page,
                    flags: match e.format {
                        PixelFormat::Bgra8 => GLYPH_FLAG_COLOR,
                        PixelFormat::Alpha8 => 0,
                    },
                },
            );
        }
    }
    Ghost(given)
}

fn draw_chars<R: Fn(GlyphKey, Option<&str>) -> Option<Bitmap>>(
    chars: &Vec<Placed>,
    atlas: &mut Atlas,
    font: &R,
    out: &mut Vec<UiTextInstance>,
)
    requires
        old(atlas).wf(),
        placeable(chars@),
        forall|key: GlyphKey, text: Option<&str>| #[trigger] call_requires(*font, (key, text)),
    ensures
        final(atlas).wf(),
        laid_out(
            (TextState { atlas: old(atlas)@, out: old(out)@ }),
            chars@,
            *font,
            (TextState { atlas: final(atlas)@, out: final(out)@ }),
        ),
{
    let ghost s = TextState { atlas: atlas@, out: out@ };
    let ghost mut drawn: Seq<Option<BitmapView>> = Seq::empty();
    let n: usize = chars.len();
    let mut i: usize = 0;
    while i < n
        invariant
            i <= n == chars@.len(),
            atlas.wf(),
            placeable(chars@),
            s == (TextState { atlas: old(atlas)@, out: old(out)@ }),
            atlas@.metrics == s.atlas.metrics,
            forall|key: GlyphKey, text: Option<&str>| #[trigger] call_requires(*font, (key, text)),
            text_drawn(s, chars@, *font, drawn, i as int),
            (TextState { atlas: atlas@, out: out@ }) == after_chars(s, chars@, drawn, i as int),
        decreases n - i,
    {
        let p: Placed = chars[i];
        let given = draw_char(p, atlas, font, out);
        proof {
            let before = drawn;
            drawn = before.push(given@);
            lemma_chars_extend(s, chars@, before, given@, i as int);
            assert(drawn[i as int] == given@);
            assert forall|k: int|
                #![trigger drawn[k]]
                0 <= k < i + 1 && chars@[k].ch != ' ' && asks_font(
                    after_chars(s, chars@, drawn, k).atlas,
                    placed_key(chars@[k]),
                ) implies font_gives(
                *font,
                Seq::empty(),
                s.atlas.metrics,
                placed_key(chars@[k]),
                drawn[k],
            ) by {
                lemma_chars_extend(s, chars@, before, given@, k);
                if k < i {
                    assert(drawn[k] == before[k]);
                }
            }
        }
        i += 1;
    }
    assert(text_drawn(s, chars@, *font, drawn, n as int));
}

/// Lays out a text from its corner and returns its width. Every character is as
/// wide as a cell, whatever its glyph, so columns line up.
pub fn layout_text<R: Fn(GlyphKey, Option<&str>) -> Option<Bitmap>>(
    atlas: &mut Atlas,
    font: &R,
    text: &str,
    origin: (i128, i128),
    color: Rgb,
    alpha: Fraction,
    metrics: OverlayMetrics,
    style: Style,
    out: &mut Vec<UiTextInstance>,
) -> (width: i128)
    requires
        old(atlas).wf(),
        in_reach(origin),
        alpha.wf(),
        forall|key: GlyphKey, text: Option<&str>| #[trigger] call_requires(*font, (key, text)),
    ensures
        final(atlas).wf(),
        width == width_of(text@.len() as int, metrics.cell_width),
        laid_out(
            (TextState { atlas: old(atlas)@, out: old(out)@ }),
            placed_run((RunView { text: text@, origin, color, alpha, style }), metrics.cell_width),
            *font,
            (TextState { atlas: final(atlas)@, out: final(out)@ }),
        ),
{
    let mut chars: Vec<Placed> = Vec::new();
    place(text, origin, color, alpha, style, metrics.cell_width, &mut chars);
    assert(chars@ =~= placed_run(
        RunView { text: text@, origin, color, alpha, style },
        metrics.cell_width,
    ));
    draw_chars(&chars, atlas, font, out);
    text_width(text, metrics)
}

/// Draws what an overlay shows.
pub fn render_drawing<R: Fn(GlyphKey, Option<&str>) -> Option<Bitmap>>(
    drawing: &Drawing,
    atlas: &mut Atlas,
    font: &R,
    metrics: OverlayMetrics,
    out: &mut InstanceBuffers,
)
    requires
        old(atlas).wf(),
        drawing.wf(),
        forall|key: GlyphKey, text: Option<&str>| #[trigger] call_requires(*font, (key, text)),
    ensures
        final(atlas).wf(),
        rendered(
            drawing@,
            old(atlas)@,
            *old(out),
            *font,
            metrics.cell_width,
            final(atlas)@,
            *final(out),
        ),
{
    let nq: usize = drawing.quads.len();
    let mut i: usize = 0;
    assert(out.quads@ =~= old(out).quads@ + drawing.quads@.take(0));
    while i < nq
        invariant
            i <= nq == drawing.quads@.len(),
            out.quads@ == old(out).quads@ + drawing.quads@.take(i as int),
            out.ui_text == old(out).ui_text,
            same_rows(*old(out), *out),
        decreases nq - i,
    {
        out.quads.push(drawing.quads[i]);
        assert(out.quads@ =~= old(out).quads@ + drawing.quads@.take(i + 1));
        i += 1;
    }
    assert(drawing.quads@.take(nq as int) =~= drawing.quads@);
    let mut chars: Vec<Placed> = Vec::new();
    let nr: usize = drawing.runs.len();
    let mut k: usize = 0;
    while k < nr
        invariant
            k <= nr == drawing.runs@.len(),
            drawing.wf(),
            placeable(chars@),
            chars@ == placed_runs(drawing@.runs, metrics.cell_width, k as int),
        decreases nr - k,
    {
        let run = &drawing.runs[k];
        assert(drawing@.runs[k as int] == run@);
        place(
            run.text.as_str(),
            run.origin,
            run.color,
            run.alpha,
            run.style,
            metrics.cell_width,
            &mut chars,
        );
        k += 1;
    }
    draw_chars(&chars, atlas, font, &mut out.ui_text);
}

/// Whether the grid's own instances are the same.
pub open spec fn same_rows(a: InstanceBuffers, b: InstanceBuffers) -> bool {
    &&& a.backgrounds == b.backgrounds
    &&& a.glyphs == b.glyphs
    &&& a.rules == b.rules
    &&& a.gutters == b.gutters
}

/// Whether drawing an overlay leads from one state of the atlas and the buffers
/// to another: rectangles and text are appended, the grid's own instances stay.
pub open spec fn rendered<R: Fn(GlyphKey, Option<&str>) -> Option<Bitmap>>(
    d: DrawingView,
    atlas: AtlasView,
    out: InstanceBuffers,
    font: R,
    cell_width: u16,
    atlas_after: AtlasView,
    after: InstanceBuffers,
) -> bool {
    &&& same_rows(out, after)
    &&& after.quads@ == out.quads@ + d.quads
    &&& laid_out(
        TextState { atlas, out: out.ui_text@ },
        placed_runs(d.runs, cell_width, d.runs.len() as int),
        font,
        TextState { atlas: atlas_after, out: after.ui_text@ },
    )
}

/// What is typed stands at the caret, which moves behind it; the text before
/// stays where it is and the text behind moves on. What is erased stood just
/// before the caret.
pub proof fn law_typing_happens_at_the_caret(f: FieldView, ch: char, more: Seq<char>, i: int)
    requires
        f.wf(),
        0 <= i < f.text.len(),
    ensures
        f.typed(ch).text.len() == f.text.len() + 1,
        f.typed(ch).text[f.caret] == ch,
        f.typed(ch).caret == f.caret + 1,
        i < f.caret ==> f.typed(ch).text[i] == f.text[i],
        i >= f.caret ==> f.typed(ch).text[i + 1] == f.text[i],
        f.typed_all(more).caret == f.caret + more.len(),
        f.typed_all(more).text.len() == f.text.len() + more.len(),
        f.typed_all(more).text.subrange(f.caret, f.caret + more.len()) == more,
        i < f.caret ==> f.typed_all(more).text[i] == f.text[i],
        i >= f.caret ==> f.typed_all(more).text[i + more.len()] == f.text[i],
        f.caret > 0 ==> f.erased().text.len() == f.text.len() - 1 && f.erased().caret == f.caret
            - 1,
        f.caret > 0 && i < f.caret - 1 ==> f.erased().text[i] == f.text[i],
        f.caret > 0 && i >= f.caret ==> f.erased().text[i - 1] == f.text[i],
        f.caret == 0 ==> f.erased() == f,
{
    assert(f.typed_all(more).text.subrange(f.caret, f.caret + more.len()) =~= more);
}

/// A row is one and six tenths of a cell high and the space around it one and a
/// half cells wide, each to the nearest pixel. A text is a cell wide for each
/// character.
pub proof fn law_overlay_measures(
    m: OverlayMetrics,
    row: u32,
    pad: u32,
    text: &str,
    wide: i128,
)
    requires
        call_ensures(OverlayMetrics::row_height, (&m,), row),
        call_ensures(OverlayMetrics::padding, (&m,), pad),
        call_ensures(text_width, (text, m), wide),
    ensures
        -5 <= 10 * row - 16 * m.cell_height <= 5,
        -1 <= 2 * pad - 3 * m.cell_width <= 1,
        wide == 100 * (text@.len() * m.cell_width),
{
    assert(text@.len() * (100 * m.cell_width) == 100 * (text@.len() * m.cell_width))
        by (nonlinear_arith);
}

/// A panel is where it is asked for, with the background raised by four parts of
/// twenty-five towards the dim colour and a dim border. A whole one is nearly
/// opaque and its border half so.
pub proof fn law_panels_stand_out_from_the_background(
    origin: (i128, i128),
    size: (i128, i128),
    material: Material,
    q: QuadInstance,
)
    requires
        material.wf(),
        call_ensures(panel, (origin, size, &material, Fraction { num: 1, den: 1 }), q),
    ensures
        q.origin == origin,
        q.size == size,
        ({
            let background = material@.roles[role_index(Role::Background)];
            let dim = material@.roles[role_index(Role::Dim)];
            &&& crate::material::is_between(
                (Rgb { r: q.fill.r, g: q.fill.g, b: q.fill.b }),
                background,
                dim,
                4,
                25,
            )
            &&& q.border.r == dim.r && q.border.g == dim.g && q.border.b == dim.b
        }),
        q.fill.a == 250,
        q.border.a == 128,
        q.border_width == 100,
        q.radius == 1000,
{
    crate::material::law_mixing_is_exact_to_half_a_step(
        material@.roles[role_index(Role::Background)],
        material@.roles[role_index(Role::Dim)],
        Fraction { num: 4, den: 25 },
    );
}

/// A plain rectangle is where it is asked for, in its colour, as opaque as asked,
/// without a border.
pub proof fn law_rectangles_are_plain(
    origin: (i128, i128),
    size: (i128, i128),
    color: Rgb,
    percent: u32,
    q: QuadInstance,
)
    requires
        percent <= 100,
        call_ensures(fill, (origin, size, color, Fraction { num: percent, den: 100 }), q),
    ensures
        q.origin == origin && q.size == size,
        q.fill.r == color.r && q.fill.g == color.g && q.fill.b == color.b,
        -50 <= 100 * q.fill.a - 255 * percent <= 50,
        q.border.a == 0 && q.border_width == 0,
        q.radius == 300,
{
    let a = Fraction { num: percent, den: 100 };
    assert(a.part() == percent);
    assert(2 * 255 * percent == 510 * percent) by (nonlinear_arith);
    assert(a.level() == (510 * percent + 100) / 200);
    assert(0 <= a.level() <= 255);
}

/// The characters of a text stand in a row from its corner, a cell apart, in its
/// colour and style.
pub proof fn law_characters_stand_a_cell_apart(run: RunView, cell_width: u16, k: int)
    requires
        0 <= k < run.text.len(),
        in_reach(run.origin),
        run.text.len() <= usize::MAX,
    ensures
        placed_run(run, cell_width).len() == run.text.len(),
        ({
            let p = placed_run(run, cell_width)[k];
            &&& p.ch == run.text[k]
            &&& p.origin.0 == run.origin.0 + 100 * (k * cell_width)
            &&& p.origin.1 == run.origin.1
            &&& p.color.r == run.color.r && p.color.g == run.color.g && p.color.b == run.color.b
            &&& p.style == run.style
        }),
{
    assert(k * (100 * cell_width) == 100 * (k * cell_width)) by (nonlinear_arith);
    assert(0 <= k * (100 * cell_width) <= 0x1_0000_0000_0000_0000 * 6553500) by (nonlinear_arith)
        requires
            0 <= k <= 0x1_0000_0000_0000_0000,
            0 <= cell_width <= 65535,
    ;
}

/// A character is drawn from its place in the atlas, moved by its own offsets,
/// in the text's colour; a space, or a glyph without pixels, draws nothing. A
/// glyph with colours of its own is marked.
pub proof fn law_a_character_is_drawn_from_the_atlas(
    s: TextState,
    p: Placed,
    drawn: Option<BitmapView>,
)
    requires
        room(p.origin),
        s.atlas.entries.contains_key(key_code(placed_key(p))),
    ensures
        ({
            let e = s.atlas.entries[key_code(placed_key(p))];
            let after = after_char(s, p, drawn);
            &&& p.ch == ' ' ==> after == s
            &&& e.rect.width == 0 || e.rect.height == 0 ==> after.out == s.out
            &&& p.ch != ' ' && e.rect.width > 0 && e.rect.height > 0 ==> {
                let g = after.out.last();
                &&& after.out.drop_last() == s.out
                &&& after.out.len() == s.out.len() + 1
                &&& g.origin.0 == p.origin.0 + 100 * e.left
                &&& g.origin.1 == p.origin.1 + 100 * e.top
                &&& g.size == (e.rect.width, e.rect.height)
                &&& g.uv_origin == (e.rect.x, e.rect.y)
                &&& g.page == e.page
                &&& g.color == p.color
                &&& e.format is Bgra8 <==> g.flags == 1
                &&& e.format is Alpha8 <==> g.flags == 0
            }
        }),
{
    let after = after_char(s, p, drawn);
    let e = s.atlas.entries[key_code(placed_key(p))];
    if p.ch != ' ' && e.rect.width > 0 && e.rect.height > 0 {
        assert(after.out.drop_last() =~= s.out);
    }
}

/// An overlay is laid over what is there: the grid's own instances stay as they
/// are, and its rectangles come behind those that there were, in order.
pub proof fn law_overlays_leave_the_grid_alone<R: Fn(GlyphKey, Option<&str>) -> Option<Bitmap>>(
    d: DrawingView,
    atlas: AtlasView,
    out: InstanceBuffers,
    font: R,
    cell_width: u16,
    atlas_after: AtlasView,
    after: InstanceBuffers,
    i: int,
)
    requires
        rendered(d, atlas, out, font, cell_width, atlas_after, after),
    ensures
        after.glyphs@ == out.glyphs@,
        after.backgrounds@ == out.backgrounds@,
        after.rules@ == out.rules@,
        after.gutters@ == out.gutters@,
        after.quads@.len() == out.quads@.len() + d.quads.len(),
        0 <= i < out.quads@.len() ==> after.quads@[i] == out.quads@[i],
        0 <= i < d.quads.len() ==> after.quads@[out.quads@.len() + i] == d.quads[i],
{
}

/// Texts are laid out one after the other, each whole.
pub proof fn law_texts_are_laid_out_in_order(runs: Seq<RunView>, run: RunView, cell_width: u16)
    ensures
        placed_runs(Seq::empty(), cell_width, 0).len() == 0,
        placed_runs(runs.push(run), cell_width, runs.len() as int + 1) == placed_runs(
            runs,
            cell_width,
            runs.len() as int,
        ) + placed_run(run, cell_width),
{
    let n = runs.len() as int;
    lemma_placed_start(runs.push(run), runs, cell_width, n);
    assert(runs.push(run)[n] == run);
}

proof fn lemma_placed_start(a: Seq<RunView>, b: Seq<RunView>, cell_width: u16, n: int)
    requires
        n <= a.len(),
        n <= b.len(),
        forall|i: int| 0 <= i < n ==> a[i] == b[i],
    ensures
        placed_runs(a, cell_width, n) == placed_runs(b, cell_width, n),
    decreases n,
{
    if n > 0 {
        lemma_placed_start(a, b, cell_width, n - 1);
    }
}

} // verus!
