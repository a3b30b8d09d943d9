//! Glyph bitmaps: trimming, scaling, and which of them need no font.

use vstd::prelude::*;

use crate::boxdraw::{glyph_pixel, is_synthesised, render, synthesised};
use crate::fontset::CellMetrics;

verus! {

/// How a glyph's pixels are stored.
#[derive(Debug, Clone, Copy, PartialEq, Eq, Structural)]
pub enum PixelFormat {
    /// One byte of coverage, tinted with the cell's colour when drawn.
    Alpha8,
    /// Premultiplied BGRA, drawn as it is.
    Bgra8,
}

impl PixelFormat {
    /// The bytes that one pixel takes.
    pub open spec fn size(self) -> int {
        match self {
            PixelFormat::Alpha8 => 1,
            PixelFormat::Bgra8 => 4,
        }
    }

    pub fn bytes_per_pixel(self) -> (n: usize)
        ensures
            n == self.size(),
    {
        match self {
            PixelFormat::Alpha8 => 1,
            PixelFormat::Bgra8 => 4,
        }
    }
}

/// A rasterised glyph, trimmed to its ink.
#[derive(Debug, Clone, PartialEq, Eq)]
pub struct Bitmap {
    pub width: u16,
    pub height: u16,
    pub format: PixelFormat,
    pub data: Vec<u8>,
    /// Offset of the left edge from the cell's left edge. Negative where the
    /// glyph overhangs.
    pub left: i16,
    /// Offset of the top edge from the cell's top edge.
    pub top: i16,
}

/// A bitmap with its pixels as a sequence.
pub struct BitmapView {
    pub width: u16,
    pub height: u16,
    pub format: PixelFormat,
    pub data: Seq<u8>,
    pub left: i16,
    pub top: i16,
}

impl View for Bitmap {
    type V = BitmapView;

    open spec fn view(&self) -> BitmapView {
        BitmapView {
            width: self.width,
            height: self.height,
            format: self.format,
            data: self.data@,
            left: self.left,
            top: self.top,
        }
    }
}

/// Whether a bitmap has exactly its rectangle's worth of pixels.
pub open spec fn filled(b: BitmapView) -> bool {
    b.data.len() == b.width * b.height * b.format.size()
}

/// A bitmap without pixels.
pub open spec fn blank_bitmap(format: PixelFormat) -> BitmapView {
    BitmapView { width: 0, height: 0, format, data: Seq::empty(), left: 0, top: 0 }
}

impl Bitmap {
    pub fn is_empty(&self) -> (yes: bool)
        ensures
            yes == (self.width == 0 || self.height == 0),
    {
        self.width == 0 || self.height == 0
    }

    fn blank(format: PixelFormat) -> (b: Bitmap)
        ensures
            b@ == blank_bitmap(format),
    {
        let b = Bitmap { width: 0, height: 0, format, data: Vec::new(), left: 0, top: 0 };
        assert(b@.data =~= Seq::empty());
        b
    }
}

/// Room around the cell into which an overhanging glyph is drawn before it is
/// trimmed.
pub open spec fn slack_around(metrics: CellMetrics) -> int {
    if metrics.width as int / 2 < 2 {
        2
    } else {
        metrics.width as int / 2
    }
}

pub fn padding(metrics: CellMetrics) -> (n: i32)
    ensures
        n == slack_around(metrics),
        2 <= n <= 32767,
{
    let half: i32 = metrics.width as i32 / 2;
    if half < 2 {
        2
    } else {
        half
    }
}

/// How many columns a glyph is drawn across.
pub open spec fn span_columns(columns: u8) -> int {
    if columns == 0 {
        1
    } else {
        columns as int
    }
}

/// The bitmap of a synthesised character is the cell itself, untrimmed.
pub open spec fn synthesised_bitmap(ch: char, metrics: CellMetrics, columns: u8, b: BitmapView) -> bool {
    let w = metrics.width * span_columns(columns);
    &&& b.width == w
    &&& b.height == metrics.height
    &&& b.format is Alpha8
    &&& b.left == 0
    &&& b.top == 0
    &&& filled(b)
    &&& forall|x: int, y: int|
        0 <= x < w && 0 <= y < metrics.height ==> #[trigger] b.data[y * w + x] == glyph_pixel(
            ch,
            w,
            metrics.height as int,
            x,
            y,
        )
}

/// Draws a box-drawing or block character, or gives `None` where it is not one
/// or the cell is empty.
pub fn rasterize_synthesised(ch: char, metrics: CellMetrics, columns: u8) -> (b: Option<Bitmap>)
    requires
        metrics.width * span_columns(columns) <= u16::MAX,
    ensures
        b is Some <==> synthesised(ch) && metrics.width > 0 && metrics.height > 0,
        b matches Some(bitmap) ==> synthesised_bitmap(ch, metrics, columns, bitmap@),
{
    let across: u16 = if columns == 0 {
        1
    } else {
        columns as u16
    };
    let width: u16 = metrics.width * across;
    proof {
        if metrics.width == 0 {
            assert(metrics.width * span_columns(columns) == 0) by (nonlinear_arith)
                requires
                    metrics.width == 0,
            ;
        } else {
            assert(metrics.width * span_columns(columns) >= 1) by (nonlinear_arith)
                requires
                    metrics.width >= 1,
                    span_columns(columns) >= 1,
            ;
        }
    }
    match render(ch, width, metrics.height) {
        None => None,
        Some(coverage) => {
            let ghost cov = coverage;
            let b = Bitmap {
                width: coverage.width,
                height: coverage.height,
                format: PixelFormat::Alpha8,
                data: coverage.data,
                left: 0,
                top: 0,
            };
            proof {
                let w = metrics.width * span_columns(columns);
                assert forall|x: int, y: int|
                    0 <= x < w && 0 <= y < metrics.height implies #[trigger] b@.data[y * w + x]
                    == glyph_pixel(ch, w, metrics.height as int, x, y) by {
                    assert(cov.pixel(x, y) == glyph_pixel(ch, w, metrics.height as int, x, y));
                }
                assert(b@.width * b@.height * 1 == b@.width * b@.height) by (nonlinear_arith);
            }
            Some(b)
        },
    }
}

/// Whether `char::is_whitespace` holds of a character.
pub uninterp spec fn white_space(c: char) -> bool;

/// `char::is_whitespace`: the Unicode `White_Space` property, which a space
/// has.
#[verifier::external_body]
pub(crate) fn is_whitespace(c: char) -> (yes: bool)
    ensures
        yes == white_space(c),
        c == ' ' ==> yes,
{
    c.is_whitespace()
}

/// Whether a character is a control code: the two blocks of them that Unicode
/// has.
pub open spec fn control(c: char) -> bool {
    c <= '\u{1F}' || '\u{7F}' <= c <= '\u{9F}'
}

pub(crate) fn is_control(c: char) -> (yes: bool)
    ensures
        yes == control(c),
{
    c <= '\u{1F}' || ('\u{7F}' <= c && c <= '\u{9F}')
}

/// Where a scalar character's pixels come from.
#[derive(Debug, Clone, Copy, PartialEq, Eq, Structural)]
pub enum ScalarPath {
    /// Drawn here against the exact cell.
    Synthesised,
    /// It has no pixels.
    Blank,
    /// The font draws it.
    Font,
}

/// Where a scalar character's pixels come from.
pub open spec fn path_of(ch: char) -> ScalarPath {
    if synthesised(ch) {
        ScalarPath::Synthesised
    } else if white_space(ch) || control(ch) {
        ScalarPath::Blank
    } else {
        ScalarPath::Font
    }
}

/// Where a scalar character's pixels come from.
pub fn scalar_path(ch: char) -> (p: ScalarPath)
    ensures
        p == path_of(ch),
{
    if is_synthesised(ch) {
        ScalarPath::Synthesised
    } else if is_whitespace(ch) || is_control(ch) {
        ScalarPath::Blank
    } else {
        ScalarPath::Font
    }
}

/// What one scalar character rasterises to, where the font gives `drawn`.
pub open spec fn scalar_result(
    ch: char,
    metrics: CellMetrics,
    columns: u8,
    drawn: Option<BitmapView>,
    out: Option<BitmapView>,
) -> bool {
    match path_of(ch) {
        ScalarPath::Synthesised => {
            &&& out is Some <==> metrics.width > 0 && metrics.height > 0
            &&& out matches Some(b) ==> synthesised_bitmap(ch, metrics, columns, b)
        },
        ScalarPath::Blank => out == Some(blank_bitmap(PixelFormat::Alpha8)),
        ScalarPath::Font => out == drawn,
    }
}

/// The view of an optional bitmap.
pub open spec fn bitmap_view(b: Option<Bitmap>) -> Option<BitmapView> {
    match b {
        Some(bitmap) => Some(bitmap@),
        None => None,
    }
}

/// Rasterises one scalar character. `draw` asks the font, and is called only
/// for a character that the font has to draw.
pub fn rasterize_scalar<F: FnOnce() -> Option<Bitmap>>(
    ch: char,
    metrics: CellMetrics,
    columns: u8,
    draw: F,
) -> (out: Option<Bitmap>)
    requires
        metrics.width * span_columns(columns) <= u16::MAX,
        call_requires(draw, ()),
    ensures
        path_of(ch) is Font ==> call_ensures(draw, (), out),
        scalar_result(ch, metrics, columns, bitmap_view(out), bitmap_view(out)),
{
    match scalar_path(ch) {
        ScalarPath::Synthesised => rasterize_synthesised(ch, metrics, columns),
        ScalarPath::Blank => Some(Bitmap::blank(PixelFormat::Alpha8)),
        ScalarPath::Font => draw(),
    }
}

/// A plain pixel buffer that a glyph was drawn into.
#[derive(Debug, Clone, PartialEq, Eq)]
pub struct Canvas {
    pub data: Vec<u8>,
    pub width: usize,
    pub height: usize,
    pub format: PixelFormat,
}

/// Whether a pixel has any ink: the coverage byte, or the alpha byte, which
/// comes last.
pub open spec fn opaque_at(data: Seq<u8>, width: int, format: PixelFormat, x: int, y: int) -> bool {
    let at = (y * width + x) * format.size();
    match format {
        PixelFormat::Alpha8 => data[at] != 0,
        PixelFormat::Bgra8 => data[at + 3] != 0,
    }
}

/// The smallest box around all ink: every inked pixel lies in it, and ink
/// touches each of its four sides.
pub open spec fn ink_box(c: Canvas, x0: int, y0: int, x1: int, y1: int) -> bool {
    &&& 0 <= x0 < x1 <= c.width
    &&& 0 <= y0 < y1 <= c.height
    &&& forall|x: int, y: int|
        0 <= x < c.width && 0 <= y < c.height && #[trigger] c.inked(x, y) ==> x0 <= x < x1 && y0 <= y
            < y1
    &&& exists|y: int| 0 <= y < c.height && #[trigger] c.inked(x0, y)
    &&& exists|y: int| 0 <= y < c.height && #[trigger] c.inked(x1 - 1, y)
    &&& exists|x: int| 0 <= x < c.width && #[trigger] c.inked(x, y0)
    &&& exists|x: int| 0 <= x < c.width && #[trigger] c.inked(x, y1 - 1)
}

/// The pixels of a box, row by row.
pub open spec fn cropped(c: Canvas, x0: int, y0: int, x1: int, y1: int) -> Seq<u8>
    decreases y1 - y0,
{
    if y1 <= y0 {
        Seq::empty()
    } else {
        cropped(c, x0, y0, x1, y1 - 1) + row_of(c, x0, x1, y1 - 1)
    }
}

/// The pixels of one row of a box.
pub open spec fn row_of(c: Canvas, x0: int, x1: int, y: int) -> Seq<u8> {
    c.data@.subrange(
        (y * c.width + x0) * c.format.size(),
        (y * c.width + x1) * c.format.size(),
    )
}

/// There is only one smallest box around the ink.
pub proof fn law_ink_box_is_unique(
    c: Canvas,
    a: (int, int, int, int),
    b: (int, int, int, int),
)
    requires
        ink_box(c, a.0, a.1, a.2, a.3),
        ink_box(c, b.0, b.1, b.2, b.3),
    ensures
        a == b,
{
}

/// Whether a bitmap is a buffer trimmed to its ink, for a cell whose corner lies
/// at that place.
pub open spec fn is_trimmed(c: Canvas, origin_x: int, origin_y: int, b: BitmapView) -> bool {
    &&& (forall|x: int, y: int|
        0 <= x < c.width && 0 <= y < c.height ==> !#[trigger] c.inked(x, y)) ==> b == blank_bitmap(
        c.format,
    )
    &&& (exists|x: int, y: int|
        0 <= x < c.width && 0 <= y < c.height && #[trigger] c.inked(x, y)) ==> exists|
        x0: int,
        y0: int,
        x1: int,
        y1: int,
    | #[trigger]
        ink_box(c, x0, y0, x1, y1) && b == (BitmapView {
            width: (x1 - x0) as u16,
            height: (y1 - y0) as u16,
            format: c.format,
            data: cropped(c, x0, y0, x1, y1),
            left: (x0 - origin_x) as i16,
            top: (y0 - origin_y) as i16,
        })
}

impl Canvas {
    /// The buffer has one pixel for each place.
    pub open spec fn wf(self) -> bool {
        self.data@.len() == self.width * self.height * self.format.size()
    }

    /// Whether a pixel has any ink.
    pub open spec fn inked(self, x: int, y: int) -> bool {
        opaque_at(self.data@, self.width as int, self.format, x, y)
    }

    fn is_inked(&self, x: usize, y: usize) -> (yes: bool)
        requires
            self.wf(),
            self.width <= u16::MAX,
            self.height <= u16::MAX,
            x < self.width,
            y < self.height,
        ensures
            yes == self.inked(x as int, y as int),
    {
        let bpp: usize = self.format.bytes_per_pixel();
        proof {
            lemma_pixel_fits(
                x as int,
                y as int,
                self.width as int,
                self.height as int,
                self.format.size(),
            );
        }
        let total: usize = self.data.len();
        assert((y * self.width + x) * bpp + bpp <= total);
        let at: usize = (y * self.width + x) * bpp;
        match self.format {
            PixelFormat::Alpha8 => self.data[at] != 0,
            PixelFormat::Bgra8 => self.data[at + 3] != 0,
        }
    }

    /// Trims to the ink. `origin_x` and `origin_y` are where the cell's corner
    /// lies in the buffer.
    pub fn trim(&self, origin_x: i32, origin_y: i32) -> (b: Bitmap)
        requires
            self.wf(),
            self.width <= u16::MAX,
            self.height <= u16::MAX,
            -0x4000_0000 <= origin_x <= 0x4000_0000,
            -0x4000_0000 <= origin_y <= 0x4000_0000,
        ensures
            is_trimmed(*self, origin_x as int, origin_y as int, b@),
            filled(b@),
    {
        let mut min_x: usize = self.width;
        let mut min_y: usize = self.height;
        let mut max_x: usize = 0;
        let mut max_y: usize = 0;
        let mut found: bool = false;
        let mut y: usize = 0;
        while y < self.height
            invariant
                self.wf(),
                self.width <= u16::MAX,
                self.height <= u16::MAX,
                y <= self.height,
                bounds_ink(*self, self.width as int, y as int, 0, min_x as int, min_y as int, max_x as int, max_y as int, found),
            decreases self.height - y,
        {
            let mut x: usize = 0;
            while x < self.width
                invariant
                    self.wf(),
                    self.width <= u16::MAX,
                    self.height <= u16::MAX,
                    y < self.height,
                    x <= self.width,
                    bounds_ink(*self, self.width as int, y as int, x as int, min_x as int, min_y as int, max_x as int, max_y as int, found),
                decreases self.width - x,
            {
                let ghost before = (min_x as int, min_y as int, max_x as int, max_y as int, found);
                if self.is_inked(x, y) {
                    found = true;
                    if x < min_x {
                        min_x = x;
                    }
                    if y < min_y {
                        min_y = y;
                    }
                    if x + 1 > max_x {
                        max_x = x + 1;
                    }
                    if y + 1 > max_y {
                        max_y = y + 1;
                    }
                }
                proof {
                    lemma_bounds_step(*self, y as int, x as int, before);
                }
                x += 1;
            }
            y += 1;
        }
        if min_x >= max_x || min_y >= max_y {
            proof {
                let size = self.format.size();
                assert(0 * 0 * size == 0) by (nonlinear_arith);
            }
            return Bitmap::blank(self.format);
        }
        assert(found);
        assert(ink_box(*self, min_x as int, min_y as int, max_x as int, max_y as int));
        let w: usize = max_x - min_x;
        let h: usize = max_y - min_y;
        let out = self.crop(min_x, min_y, max_x, max_y);
        let left: i32 = min_x as i32 - origin_x;
        let top: i32 = min_y as i32 - origin_y;
        let b = Bitmap {
            width: w as u16,
            height: h as u16,
            format: self.format,
            data: out,
            left: left as i16,
            top: top as i16,
        };
        b
    }

    /// Copies a box out of the buffer.
    fn crop(&self, x0: usize, y0: usize, x1: usize, y1: usize) -> (out: Vec<u8>)
        requires
            self.wf(),
            self.width <= u16::MAX,
            self.height <= u16::MAX,
            x0 < x1 <= self.width,
            y0 < y1 <= self.height,
        ensures
            out@ == cropped(*self, x0 as int, y0 as int, x1 as int, y1 as int),
            out@.len() == (x1 - x0) * (y1 - y0) * self.format.size(),
    {
        let bpp: usize = self.format.bytes_per_pixel();
        let mut out: Vec<u8> = Vec::new();
        let mut y: usize = y0;
        assert((x1 - x0) * 0 * self.format.size() == 0) by (nonlinear_arith);
        while y < y1
            invariant
                self.wf(),
                self.width <= u16::MAX,
                self.height <= u16::MAX,
                bpp == self.format.size(),
                x0 < x1 <= self.width,
                y0 <= y <= y1 <= self.height,
                out@ == cropped(*self, x0 as int, y0 as int, x1 as int, y as int),
                out@.len() == (x1 - x0) * (y - y0) * self.format.size(),
            decreases y1 - y,
        {
            let ghost sofar = out@;
            let ghost row = row_of(*self, x0 as int, x1 as int, y as int);
            proof {
                lemma_pixel_fits(
                    x1 - 1,
                    y as int,
                    self.width as int,
                    self.height as int,
                    self.format.size(),
                );
                lemma_pixel_fits(
                    x0 as int,
                    y as int,
                    self.width as int,
                    self.height as int,
                    self.format.size(),
                );
                lemma_row_len(x0 as int, x1 as int, y as int, self.width as int, self.format.size());
                assert((x1 - x0) * (y + 1 - y0) * self.format.size() == (x1 - x0) * (y - y0)
                    * self.format.size() + (x1 - x0) * self.format.size()) by (nonlinear_arith);
            }
            let total: usize = self.data.len();
            assert((y * self.width + x1) * bpp <= total);
            assert((x1 - x0) * bpp >= 0) by (nonlinear_arith)
                requires
                    x0 < x1,
            ;
            let start: usize = (y * self.width + x0) * bpp;
            let stop: usize = start + (x1 - x0) * bpp;
            let mut i: usize = start;
            while i < stop
                invariant
                    start <= i <= stop <= self.data@.len(),
                    out@ == sofar + self.data@.subrange(start as int, i as int),
                decreases stop - i,
            {
                out.push(self.data[i]);
                i += 1;
                assert(out@ =~= sofar + self.data@.subrange(start as int, i as int));
            }
            assert(self.data@.subrange(start as int, stop as int) =~= row);
            y += 1;
        }
        out
    }
}

/// The bounds of the ink seen in the rows before `y` and in the first `x`
/// pixels of row `y`.
spec fn bounds_ink(
    c: Canvas,
    w: int,
    y: int,
    x: int,
    min_x: int,
    min_y: int,
    max_x: int,
    max_y: int,
    found: bool,
) -> bool {
    &&& w == c.width
    &&& forall|i: int, j: int|
        0 <= i < w && 0 <= j < c.height && (j < y || (j == y && i < x)) && #[trigger] c.inked(i, j)
            ==> found && min_x <= i < max_x && min_y <= j < max_y
    &&& !found ==> min_x == w && min_y == c.height && max_x == 0 && max_y == 0
    &&& found ==> {
        &&& 0 <= min_x < max_x <= w
        &&& 0 <= min_y < max_y <= c.height
        &&& exists|j: int| 0 <= j < c.height && #[trigger] c.inked(min_x, j)
        &&& exists|j: int| 0 <= j < c.height && #[trigger] c.inked(max_x - 1, j)
        &&& exists|i: int| 0 <= i < w && #[trigger] c.inked(i, min_y)
        &&& exists|i: int| 0 <= i < w && #[trigger] c.inked(i, max_y - 1)
    }
}

/// The bounds after one more pixel.
proof fn lemma_bounds_step(c: Canvas, y: int, x: int, b: (int, int, int, int, bool))
    requires
        bounds_ink(c, c.width as int, y, x, b.0, b.1, b.2, b.3, b.4),
        0 <= x < c.width,
        0 <= y < c.height,
    ensures
        !c.inked(x, y) ==> bounds_ink(c, c.width as int, y, x + 1, b.0, b.1, b.2, b.3, b.4),
        c.inked(x, y) ==> bounds_ink(
            c,
            c.width as int,
            y,
            x + 1,
            if x < b.0 {
                x
            } else {
                b.0
            },
            if y < b.1 {
                y
            } else {
                b.1
            },
            if x + 1 > b.2 {
                x + 1
            } else {
                b.2
            },
            if y + 1 > b.3 {
                y + 1
            } else {
                b.3
            },
            true,
        ),
{
    if c.inked(x, y) && b.4 {
        let left = choose|j: int| 0 <= j < c.height && #[trigger] c.inked(b.0, j);
        let right = choose|j: int| 0 <= j < c.height && #[trigger] c.inked(b.2 - 1, j);
        let top = choose|i: int| 0 <= i < c.width && #[trigger] c.inked(i, b.1);
        let bottom = choose|i: int| 0 <= i < c.width && #[trigger] c.inked(i, b.3 - 1);
        assert(c.inked(b.0, left) && c.inked(b.2 - 1, right));
        assert(c.inked(top, b.1) && c.inked(bottom, b.3 - 1));
    }
    assert(c.inked(x, y) ==> c.inked(x + 1 - 1, y) && c.inked(x, y + 1 - 1));
}

proof fn lemma_pixel_fits(x: int, y: int, w: int, h: int, size: int)
    requires
        0 <= x < w <= 65535,
        0 <= y < h <= 65535,
        1 <= size <= 4,
    ensures
        0 <= y * w,
        0 <= y * w + x,
        0 <= (y * w + x) * size,
        (y * w + x) * size + size <= w * h * size,
        (y * w + x + 1) * size == (y * w + x) * size + size,
        y * w + x < 65535 * 65535,
        w * h * size <= 65535 * 65535 * 4,
{
    assert(0 <= y * w && y * w + x < w * h && w * h <= 65535 * 65535) by (nonlinear_arith)
        requires
            0 <= x < w <= 65535,
            0 <= y < h <= 65535,
    ;
    let p = y * w + x;
    let n = w * h;
    assert(0 <= p * size && p * size + size <= n * size && (p + 1) * size == p * size + size && n
        * size <= 65535 * 65535 * 4) by (nonlinear_arith)
        requires
            0 <= p < n <= 65535 * 65535,
            1 <= size <= 4,
    ;
}

proof fn lemma_row_len(x0: int, x1: int, y: int, w: int, size: int)
    ensures
        (y * w + x1) * size == (y * w + x0) * size + (x1 - x0) * size,
        (y * w + (x1 - 1) + 1) * size == (y * w + x1) * size,
{
    assert((y * w + x1) * size == (y * w + x0) * size + (x1 - x0) * size) by (nonlinear_arith);
}

/// `n / d` to the nearest integer, halves away from zero.
pub open spec fn nearest(n: int, d: int) -> int {
    if n >= 0 {
        (2 * n + d) / (2 * d)
    } else {
        -((2 * (-n) + d) / (2 * d))
    }
}

/// `n / d` to the nearest integer, halves away from zero.
pub(crate) fn round_div(n: i128, d: i128) -> (q: i128)
    requires
        -0x1_0000_0000_0000 <= n <= 0x1_0000_0000_0000,
        0 < d <= 0x1_0000,
    ensures
        q == nearest(n as int, d as int),
{
    if n >= 0 {
        (2 * n + d) / (2 * d)
    } else {
        -((2 * (-n) + d) / (2 * d))
    }
}

/// `v` moved into `low..=high`.
pub open spec fn held(v: int, low: int, high: int) -> int {
    if v < low {
        low
    } else if v > high {
        high
    } else {
        v
    }
}

/// The height of a bitmap scaled to another width: at least one row.
pub open spec fn scaled_height(b: BitmapView, target_width: u16) -> int {
    held(nearest(b.height * target_width, b.width as int), 1, 65535)
}

/// Where the source box of destination pixel `i` begins, for `from` source
/// pixels scaled to `to`.
pub open spec fn box_start(i: int, from: int, to: int) -> int {
    i * from / to
}

/// Where that box ends: after at least one pixel, but inside the source.
pub open spec fn box_stop(i: int, from: int, to: int) -> int {
    let stop = (i + 1) * from / to;
    let start = box_start(i, from, to);
    let wide = if stop < start + 1 {
        start + 1
    } else {
        stop
    };
    if wide > from {
        from
    } else {
        wide
    }
}

/// The sum of one channel over `x0..x1` of row `y`.
pub open spec fn row_sum(b: BitmapView, channel: int, y: int, x0: int, x1: int) -> int
    decreases x1 - x0,
{
    if x1 <= x0 {
        0
    } else {
        row_sum(b, channel, y, x0, x1 - 1) + b.data[(y * b.width + x1 - 1) * b.format.size()
            + channel]
    }
}

/// The sum of one channel over `x0..x1` by `y0..y1`.
pub open spec fn box_sum(b: BitmapView, channel: int, x0: int, x1: int, y0: int, y1: int) -> int
    decreases y1 - y0,
{
    if y1 <= y0 {
        0
    } else {
        box_sum(b, channel, x0, x1, y0, y1 - 1) + row_sum(b, channel, y1 - 1, x0, x1)
    }
}

/// One channel of a scaled pixel: the average of its source box.
pub open spec fn scaled_sample(
    b: BitmapView,
    target_width: int,
    target_height: int,
    x: int,
    y: int,
    channel: int,
) -> u8 {
    let x0 = box_start(x, b.width as int, target_width);
    let x1 = box_stop(x, b.width as int, target_width);
    let y0 = box_start(y, b.height as int, target_height);
    let y1 = box_stop(y, b.height as int, target_height);
    if x0 < x1 && y0 < y1 {
        (box_sum(b, channel, x0, x1, y0, y1) / ((x1 - x0) * (y1 - y0))) as u8
    } else {
        0
    }
}

/// A scaled bitmap: the aspect ratio and the format are kept.
pub open spec fn is_scaled(b: BitmapView, target_width: u16, out: BitmapView) -> bool {
    let h = scaled_height(b, target_width);
    &&& out.width == target_width
    &&& out.height == h
    &&& out.format == b.format
    &&& filled(out)
    &&& out.left == held(nearest(b.left * target_width, b.width as int), -32768, 32767)
    &&& out.top == held(nearest(b.top * target_width, b.width as int), -32768, 32767)
    &&& forall|x: int, y: int, channel: int|
        0 <= x < target_width && 0 <= y < h && 0 <= channel < b.format.size()
            ==> #[trigger] out.data[(y * target_width + x) * b.format.size() + channel]
            == scaled_sample(b, target_width as int, h, x, y, channel)
}

proof fn lemma_row_sum(b: BitmapView, channel: int, y: int, x0: int, x1: int)
    requires
        x0 <= x1,
    ensures
        0 <= row_sum(b, channel, y, x0, x1) <= 255 * (x1 - x0),
    decreases x1 - x0,
{
    if x0 < x1 {
        lemma_row_sum(b, channel, y, x0, x1 - 1);
    }
}

proof fn lemma_box_sum(b: BitmapView, channel: int, x0: int, x1: int, y0: int, y1: int)
    requires
        x0 <= x1,
        y0 <= y1,
    ensures
        0 <= box_sum(b, channel, x0, x1, y0, y1) <= 255 * ((x1 - x0) * (y1 - y0)),
    decreases y1 - y0,
{
    if y0 < y1 {
        lemma_box_sum(b, channel, x0, x1, y0, y1 - 1);
        lemma_row_sum(b, channel, y1 - 1, x0, x1);
        assert((x1 - x0) * (y1 - y0) == (x1 - x0) * (y1 - 1 - y0) + (x1 - x0)) by (nonlinear_arith);
    } else {
        assert((x1 - x0) * (y1 - y0) == 0) by (nonlinear_arith)
            requires
                y0 == y1,
        ;
    }
}

proof fn lemma_box(i: int, from: int, to: int)
    requires
        0 <= i < to,
        0 <= from,
    ensures
        0 <= box_start(i, from, to) <= from,
        box_start(i, from, to) <= box_stop(i, from, to) <= from,
        0 <= (i + 1) * from,
        0 <= (i + 1) * from / to <= from,
        0 <= i * from,
{
    assert(0 <= i * from && i * from <= from * to && 0 <= (i + 1) * from <= from * to)
        by (nonlinear_arith)
        requires
            0 <= i < to,
            0 <= from,
    ;
    assert(0 <= i * from / to <= from) by (nonlinear_arith)
        requires
            0 <= i * from <= from * to,
            to > 0,
    ;
    assert(0 <= (i + 1) * from / to <= from) by (nonlinear_arith)
        requires
            0 <= (i + 1) * from <= from * to,
            to > 0,
    ;
}

/// `n / d` to the nearest integer, halves away from zero.
fn round_ratio(n: i64, d: i64) -> (r: i64)
    requires
        -0x1_0000_0000 <= n <= 0x1_0000_0000,
        1 <= d <= 65535,
    ensures
        r == nearest(n as int, d as int),
        -0x1_0000_0000 <= r <= 0x1_0000_0000,
{
    if n >= 0 {
        assert(0 <= (2 * n + d) / (2 * d) <= 0x1_0000_0000) by (nonlinear_arith)
            requires
                0 <= n <= 0x1_0000_0000,
                1 <= d,
        ;
        (2 * n + d) / (2 * d)
    } else {
        assert(0 <= (2 * (-n) + d) / (2 * d) <= 0x1_0000_0000) by (nonlinear_arith)
            requires
                0 <= -n <= 0x1_0000_0000,
                1 <= d,
        ;
        -((2 * (-n) + d) / (2 * d))
    }
}

fn hold(v: i64, low: i64, high: i64) -> (r: i64)
    requires
        low <= high,
    ensures
        r == held(v as int, low as int, high as int),
        low <= r <= high,
{
    if v < low {
        low
    } else if v > high {
        high
    } else {
        v
    }
}

/// The average of one channel over a box of the source.
fn average(source: &Bitmap, channel: usize, x0: usize, x1: usize, y0: usize, y1: usize) -> (v: u8)
    requires
        filled(source@),
        channel < source.format.size(),
        x0 < x1 <= source.width,
        y0 < y1 <= source.height,
    ensures
        v == (box_sum(source@, channel as int, x0 as int, x1 as int, y0 as int, y1 as int) / ((x1
            - x0) * (y1 - y0))) as u8,
{
    let bpp: usize = source.format.bytes_per_pixel();
    let w: usize = source.width as usize;
    let mut total: u64 = 0;
    let ghost b = source@;
    assert((x1 - x0) * 0 == 0) by (nonlinear_arith);
    let mut y: usize = y0;
    while y < y1
        invariant
            b == source@,
            filled(b),
            channel < source.format.size(),
            bpp == source.format.size(),
            w == source.width,
            x0 < x1 <= source.width,
            y0 <= y <= y1 <= source.height,
            total == box_sum(b, channel as int, x0 as int, x1 as int, y0 as int, y as int),
        decreases y1 - y,
    {
        proof {
            lemma_box_sum(b, channel as int, x0 as int, x1 as int, y0 as int, y as int);
            assert((x1 - x0) * (y - y0) <= 65535 * 65535) by (nonlinear_arith)
                requires
                    0 <= x1 - x0 <= 65535,
                    0 <= y - y0 <= 65535,
            ;
        }
        let ghost above = total as int;
        let mut x: usize = x0;
        while x < x1
            invariant
                b == source@,
                filled(b),
                channel < source.format.size(),
                bpp == source.format.size(),
                w == source.width,
                x0 <= x <= x1 <= source.width,
                y < source.height,
                0 <= above <= 255 * (65535 * 65535),
                total == above + row_sum(b, channel as int, y as int, x0 as int, x as int),
            decreases x1 - x,
        {
            proof {
                lemma_row_sum(b, channel as int, y as int, x0 as int, x as int);
                lemma_pixel_fits(
                    x as int,
                    y as int,
                    w as int,
                    source.height as int,
                    source.format.size(),
                );
            }
            let held_bytes: usize = source.data.len();
            assert((y * w + x) * bpp + bpp <= held_bytes);
            total = total + source.data[(y * w + x) * bpp + channel] as u64;
            x += 1;
        }
        y += 1;
    }
    proof {
        lemma_box_sum(b, channel as int, x0 as int, x1 as int, y0 as int, y1 as int);
        assert(1 <= (x1 - x0) * (y1 - y0) <= 65535 * 65535) by (nonlinear_arith)
            requires
                1 <= x1 - x0 <= 65535,
                1 <= y1 - y0 <= 65535,
        ;
    }
    let count: u64 = (x1 - x0) as u64 * (y1 - y0) as u64;
    proof {
        assert(0 <= total / count <= 255) by (nonlinear_arith)
            requires
                0 <= total <= 255 * count,
                count >= 1,
        ;
    }
    (total / count) as u8
}

/// Scales a bitmap to a width by averaging, keeping its aspect ratio. A bitmap
/// without columns has no ratio to keep.
pub fn downscale_to_width(source: &Bitmap, target_width: u16) -> (out: Bitmap)
    requires
        filled(source@),
        source.width >= 1,
        target_width * scaled_height(source@, target_width) * source.format.size() <= usize::MAX,
    ensures
        is_scaled(source@, target_width, out@),
{
    let bpp: usize = source.format.bytes_per_pixel();
    let sw: usize = source.width as usize;
    let sh: usize = source.height as usize;
    let tw: usize = target_width as usize;
    proof {
        assert(0 <= source.height * target_width <= 0x1_0000_0000) by (nonlinear_arith)
            requires
                0 <= source.height <= 65535,
                0 <= target_width <= 65535,
        ;
        assert(-0x1_0000_0000 <= source.left * target_width <= 0x1_0000_0000) by (nonlinear_arith)
            requires
                -32768 <= source.left <= 32767,
                0 <= target_width <= 65535,
        ;
        assert(-0x1_0000_0000 <= source.top * target_width <= 0x1_0000_0000) by (nonlinear_arith)
            requires
                -32768 <= source.top <= 32767,
                0 <= target_width <= 65535,
        ;
    }
    let scaled: i64 = round_ratio(
        source.height as i64 * target_width as i64,
        source.width as i64,
    );
    let th: usize = hold(scaled, 1, 65535) as usize;
    let left: i64 = hold(
        round_ratio(source.left as i64 * target_width as i64, source.width as i64),
        -32768,
        32767,
    );
    let top: i64 = hold(
        round_ratio(source.top as i64 * target_width as i64, source.width as i64),
        -32768,
        32767,
    );
    let mut data: Vec<u8> = Vec::new();
    let ghost b = source@;
    let ghost size = b.format.size();
    let mut y: usize = 0;
    assert(0 * tw * size == 0) by (nonlinear_arith);
    while y < th
        invariant
            b == source@,
            filled(b),
            size == b.format.size(),
            bpp == size,
            sw == source.width,
            sh == source.height,
            tw == target_width,
            sw >= 1,
            1 <= th <= 65535,
            y <= th,
            data@.len() == y * tw * size,
            forall|i: int, j: int, c: int|
                0 <= i < tw && 0 <= j < y && 0 <= c < size ==> #[trigger] data@[(j * tw + i) * size
                    + c] == scaled_sample(b, tw as int, th as int, i, j, c),
        decreases th - y,
    {
        let mut x: usize = 0;
        while x < tw
            invariant
                b == source@,
                filled(b),
                size == b.format.size(),
                bpp == size,
                sw == source.width,
                sh == source.height,
                tw == target_width,
                sw >= 1,
                1 <= th <= 65535,
                y < th,
                x <= tw,
                data@.len() == (y * tw + x) * size,
                forall|i: int, j: int, c: int|
                    0 <= i < tw && 0 <= j && (j < y || (j == y && i < x)) && 0 <= c < size
                        ==> #[trigger] data@[(j * tw + i) * size + c] == scaled_sample(
                        b,
                        tw as int,
                        th as int,
                        i,
                        j,
                        c,
                    ),
            decreases tw - x,
        {
            proof {
                lemma_box(x as int, sw as int, tw as int);
                lemma_box(y as int, sh as int, th as int);
                assert((x + 1) * sw <= 65535 * 65535 && x * sw <= 65535 * 65535 && (y + 1) * sh
                    <= 65535 * 65535 && y * sh <= 65535 * 65535) by (nonlinear_arith)
                    requires
                        0 <= x < 65535,
                        0 <= y < 65535,
                        0 <= sw <= 65535,
                        0 <= sh <= 65535,
                ;
            }
            let (x0, x1) = source_box(x, sw, tw);
            let (y0, y1) = source_box(y, sh, th);
            let ghost before = data@;
            let mut channel: usize = 0;
            while channel < bpp
                invariant
                    b == source@,
                    filled(b),
                    size == b.format.size(),
                    bpp == size,
                    tw == target_width,
                    x < tw,
                    y < th,
                    channel <= bpp,
                    x1 <= source.width,
                    y1 <= source.height,
                    x0 == box_start(x as int, b.width as int, tw as int),
                    x1 == box_stop(x as int, b.width as int, tw as int),
                    y0 == box_start(y as int, b.height as int, th as int),
                    y1 == box_stop(y as int, b.height as int, th as int),
                    before.len() == (y * tw + x) * size,
                    data@.len() == before.len() + channel,
                    forall|k: int| 0 <= k < before.len() ==> data@[k] == before[k],
                    forall|c: int|
                        0 <= c < channel ==> #[trigger] data@[before.len() + c] == scaled_sample(
                            b,
                            tw as int,
                            th as int,
                            x as int,
                            y as int,
                            c,
                        ),
                decreases bpp - channel,
            {
                let v: u8 = if x0 < x1 && y0 < y1 {
                    average(source, channel, x0, x1, y0, y1)
                } else {
                    0
                };
                data.push(v);
                channel += 1;
            }
            proof {
                let n = (y * tw + x) * size;
                assert(((y * tw + x) + 1) * size == n + size) by (nonlinear_arith)
                    requires
                        n == (y * tw + x) * size,
                ;
                assert forall|i: int, j: int, c: int|
                    0 <= i < tw && 0 <= j && (j < y || (j == y && i < x + 1)) && 0 <= c < size
                    implies #[trigger] data@[(j * tw + i) * size + c] == scaled_sample(
                    b,
                    tw as int,
                    th as int,
                    i,
                    j,
                    c,
                ) by {
                    if j < y || i < x {
                        lemma_sample_before(i, j, x as int, y as int, tw as int, size, c);
                        assert(before[(j * tw + i) * size + c] == scaled_sample(
                            b,
                            tw as int,
                            th as int,
                            i,
                            j,
                            c,
                        ));
                    } else {
                        assert(data@[before.len() + c] == scaled_sample(
                            b,
                            tw as int,
                            th as int,
                            i,
                            j,
                            c,
                        ));
                    }
                }
            }
            x += 1;
        }
        proof {
            assert((y * tw + tw) * size == (y + 1) * tw * size) by (nonlinear_arith);
        }
        y += 1;
    }
    proof {
        assert(th * tw * size == tw * th * size) by (nonlinear_arith);
    }
    Bitmap {
        width: target_width,
        height: th as u16,
        format: source.format,
        data,
        left: left as i16,
        top: top as i16,
    }
}

/// The source pixels that destination pixel `i` averages.
fn source_box(i: usize, from: usize, to: usize) -> (r: (usize, usize))
    requires
        i < to <= 65535,
        from <= 65535,
    ensures
        r.0 == box_start(i as int, from as int, to as int),
        r.1 == box_stop(i as int, from as int, to as int),
        r.1 <= from,
{
    proof {
        lemma_box(i as int, from as int, to as int);
        assert((i + 1) * from <= 65535 * 65535 && i * from <= 65535 * 65535) by (nonlinear_arith)
            requires
                0 <= i < 65535,
                0 <= from <= 65535,
        ;
    }
    let start: usize = i * from / to;
    let stop: usize = (i + 1) * from / to;
    let wide: usize = if stop < start + 1 {
        start + 1
    } else {
        stop
    };
    let cut: usize = if wide > from {
        from
    } else {
        wide
    };
    (start, cut)
}

/// An earlier sample lies before the pixel being written.
proof fn lemma_sample_before(i: int, j: int, x: int, y: int, w: int, size: int, c: int)
    requires
        0 <= i < w,
        0 <= j,
        0 <= x < w,
        j < y || (j == y && i < x),
        0 <= c < size,
    ensures
        0 <= (j * w + i) * size + c < (y * w + x) * size,
{
    assert(0 <= j * w + i && j * w + i + 1 <= y * w + x) by (nonlinear_arith)
        requires
            0 <= i < w,
            0 <= j,
            0 <= x < w,
            j < y || (j == y && i < x),
    ;
    let p = j * w + i;
    let q = y * w + x;
    assert(0 <= p * size && p * size + size <= q * size) by (nonlinear_arith)
        requires
            0 <= p,
            p + 1 <= q,
            0 <= size,
    ;
}

/// The size of the buffer that a glyph is drawn into: its cells, with room
/// around them.
pub fn canvas_size(metrics: CellMetrics, columns: u8) -> (size: (usize, usize))
    requires
        metrics.width * span_columns(columns) <= u16::MAX,
    ensures
        size.0 == metrics.width * span_columns(columns) + 2 * slack_around(metrics),
        size.1 == metrics.height + 2 * slack_around(metrics),
{
    let pad: usize = padding(metrics) as usize;
    let span: usize = if columns == 0 {
        1
    } else {
        columns as usize
    };
    let cells: usize = metrics.width as usize * span;
    (cells + 2 * pad, metrics.height as usize + 2 * pad)
}

/// How far the baseline lies above the bottom of that buffer.
pub fn baseline_above(metrics: CellMetrics) -> (n: i32)
    ensures
        n == metrics.height + slack_around(metrics) - metrics.baseline,
{
    metrics.height as i32 + padding(metrics) - metrics.baseline as i32
}

/// What a line of text that was drawn in colour comes to: trimmed, and scaled
/// down where it is wider than its cells. An emoji at the size of the text often
/// is.
pub open spec fn is_fitted(c: Canvas, metrics: CellMetrics, columns: u8, b: BitmapView) -> bool {
    exists|whole: BitmapView|
        {
            &&& #[trigger] is_trimmed(c, slack_around(metrics), slack_around(metrics), whole)
            &&& if whole.width > metrics.width * span_columns(columns) {
                is_scaled(whole, (metrics.width * span_columns(columns)) as u16, b)
            } else {
                b == whole
            }
        }
}

proof fn lemma_smaller(h: int, w: int, target: int)
    requires
        1 <= h <= 65535,
        0 <= target < w,
    ensures
        held(nearest(h * target, w), 1, 65535) <= h,
{
    assert(0 <= h * target && h * target <= h * w - h) by (nonlinear_arith)
        requires
            1 <= h,
            0 <= target < w,
    ;
    assert((2 * (h * target) + w) / (2 * w) <= h) by (nonlinear_arith)
        requires
            0 <= h * target <= h * w - h,
            1 <= h,
            0 < w,
    ;
}

/// Rasterises a cluster of characters from the buffer that it was drawn into:
/// one glyph, no wider than its cells.
pub fn rasterize_cluster(drawn: Option<Canvas>, metrics: CellMetrics, columns: u8) -> (out: Option<
    Bitmap,
>)
    requires
        metrics.width * span_columns(columns) <= u16::MAX,
        drawn matches Some(c) ==> c.wf() && c.width <= u16::MAX && c.height <= u16::MAX,
    ensures
        match drawn {
            Some(c) => out matches Some(b) && is_fitted(c, metrics, columns, b@) && filled(b@),
            None => out is None,
        },
{
    match drawn {
        None => None,
        Some(c) => {
            let pad: i32 = padding(metrics);
            let span: u16 = if columns == 0 {
                1
            } else {
                columns as u16
            };
            let cells: u16 = metrics.width * span;
            let whole = c.trim(pad, pad);
            assert(is_trimmed(c, slack_around(metrics), slack_around(metrics), whole@));
            if whole.width > cells {
                proof {
                    assert(whole.height >= 1) by {
                        assert(whole@ != blank_bitmap(c.format));
                    }
                    lemma_smaller(whole.height as int, whole.width as int, cells as int);
                }
                let len: usize = whole.data.len();
                assert(cells * scaled_height(whole@, cells) * whole.format.size() <= len)
                    by (nonlinear_arith)
                    requires
                        0 <= cells <= whole.width,
                        1 <= scaled_height(whole@, cells) <= whole.height,
                        1 <= whole.format.size() <= 4,
                        len == whole.width * whole.height * whole.format.size(),
                ;
                let b = downscale_to_width(&whole, cells);
                assert(is_fitted(c, metrics, columns, b@));
                Some(b)
            } else {
                assert(is_fitted(c, metrics, columns, whole@));
                Some(whole)
            }
        },
    }
}

/// Whether every pixel is white, as far as it is there at all: what a glyph
/// without colours of its own comes to when it is drawn in white.
pub open spec fn colourless(b: BitmapView) -> bool {
    &&& b.format is Bgra8
    &&& forall|i: int|
        0 <= i < b.width * b.height ==> (#[trigger] b.data[4 * i + 3]) == b.data[4 * i]
            && b.data[4 * i + 3] == b.data[4 * i + 1] && b.data[4 * i + 3] == b.data[4 * i + 2]
}

/// A bitmap that can take on the text's colour, where it has none of its own.
pub open spec fn as_mask(b: BitmapView) -> BitmapView {
    if colourless(b) {
        BitmapView {
            format: PixelFormat::Alpha8,
            data: Seq::new((b.width * b.height) as nat, |i: int| b.data[4 * i + 3]),
            ..b
        }
    } else {
        b
    }
}

/// A bitmap that can take on the text's colour, where it has none of its own. A
/// key's symbol from a font behind the text's fonts is such a glyph; in a colour
/// of its own it would vanish on half the themes.
pub fn tintable(b: Bitmap) -> (out: Bitmap)
    requires
        filled(b@),
    ensures
        out@ == as_mask(b@),
        filled(out@),
{
    match b.format {
        PixelFormat::Alpha8 => {
            return b;
        },
        PixelFormat::Bgra8 => {},
    }
    let ghost view = b@;
    let len: usize = b.data.len();
    let n: usize = len / 4;
    assert(len == b.width * b.height * 4);
    assert(n == b.width * b.height);
    let mut mask: Vec<u8> = Vec::new();
    let mut i: usize = 0;
    while i < n
        invariant
            i <= n,
            4 * n == len == b.data@.len(),
            view == b@,
            n == view.width * view.height,
            mask@ == Seq::new(i as nat, |k: int| view.data[4 * k + 3]),
            view.format is Bgra8,
            forall|k: int|
                0 <= k < i ==> (#[trigger] view.data[4 * k + 3]) == view.data[4 * k]
                    && view.data[4 * k + 3] == view.data[4 * k + 1] && view.data[4 * k + 3]
                    == view.data[4 * k + 2],
        decreases n - i,
    {
        let at: usize = 4 * i;
        let a: u8 = b.data[at + 3];
        if a != b.data[at] || a != b.data[at + 1] || a != b.data[at + 2] {
            assert(view.data[4 * (i as int) + 3] == a);
            assert(!colourless(view));
            return b;
        }
        mask.push(a);
        i += 1;
        assert(mask@ =~= Seq::new(i as nat, |k: int| view.data[4 * k + 3]));
    }
    let out = Bitmap {
        width: b.width,
        height: b.height,
        format: PixelFormat::Alpha8,
        data: mask,
        left: b.left,
        top: b.top,
    };
    assert(out@ == as_mask(view));
    out
}

/// Rasterises one character that the text's fonts lack, from the buffer that it
/// was drawn into in white.
pub fn rasterize_fallback(drawn: Option<Canvas>, metrics: CellMetrics, columns: u8) -> (out: Option<
    Bitmap,
>)
    requires
        metrics.width * span_columns(columns) <= u16::MAX,
        drawn matches Some(c) ==> c.wf() && c.width <= u16::MAX && c.height <= u16::MAX,
    ensures
        match drawn {
            Some(c) => {
                &&& out matches Some(b) && filled(b@) && exists|whole: BitmapView| #[trigger]
                    is_fitted(c, metrics, columns, whole) && b@ == as_mask(whole)
            },
            None => out is None,
        },
{
    match rasterize_cluster(drawn, metrics, columns) {
        Some(b) => Some(tintable(b)),
        None => None,
    }
}

/// Rounding goes to the nearest whole number, and from the middle away from
/// zero.
pub proof fn law_rounding_goes_to_the_nearest(n: int, d: int)
    requires
        d > 0,
    ensures
        -d <= 2 * (nearest(n, d) * d - n) <= d,
        nearest(-n, d) == -nearest(n, d),
        n >= 0 ==> 2 * (nearest(n, d) * d - n) > -d,
{
    let m = if n >= 0 {
        n
    } else {
        -n
    };
    let q = (2 * m + d) / (2 * d);
    assert(2 * m + d == (2 * d) * q + (2 * m + d) % (2 * d) && 0 <= (2 * m + d) % (2 * d) < 2 * d)
        by (nonlinear_arith)
        requires
            d > 0,
            m >= 0,
            q == (2 * m + d) / (2 * d),
    ;
    assert((2 * d) * q == 2 * (q * d)) by (nonlinear_arith);
    assert((-q) * d == -(q * d)) by (nonlinear_arith);
    if n == 0 {
        assert(d / (2 * d) == 0) by (nonlinear_arith)
            requires
                d > 0,
        ;
        assert(0 * d == 0);
    }
}

/// What is in bounds is left alone, and what is not becomes the nearer bound.
pub proof fn law_holding_moves_to_the_nearer_bound(v: int, low: int, high: int)
    requires
        low <= high,
    ensures
        low <= v <= high ==> held(v, low, high) == v,
        v < low ==> held(v, low, high) == low,
        v > high ==> held(v, low, high) == high,
{
}

/// Control codes are not drawn, and a space neither; box-drawing and block
/// characters are drawn here whatever the font has.
pub proof fn law_where_pixels_come_from(ch: char, p: ScalarPath)
    requires
        call_ensures(scalar_path, (ch,), p),
    ensures
        '\u{2500}' <= ch <= '\u{259F}' <==> p is Synthesised,
        ch <= '\u{1F}' || '\u{7F}' <= ch <= '\u{9F}' ==> p is Blank,
        white_space(ch) ==> !(p is Font),
{
}

/// A pixel of coverage has ink where its byte is not zero, a coloured one where
/// its fourth byte is not.
pub proof fn law_ink_is_what_can_be_seen(c: Canvas, x: int, y: int)
    ensures
        c.format is Alpha8 ==> (c.inked(x, y) <==> c.data@[y * c.width + x] != 0),
        c.format is Bgra8 ==> (c.inked(x, y) <==> c.data@[(y * c.width + x) * 4 + 3] != 0),
{
    let at = y * c.width + x;
    assert(at * 1 == at) by (nonlinear_arith);
}

proof fn lemma_row_in_canvas(c: Canvas, x0: int, x1: int, y: int)
    requires
        c.wf(),
        0 <= x0 <= x1 <= c.width,
        0 <= y < c.height,
    ensures
        0 <= (y * c.width + x0) * c.format.size() <= (y * c.width + x1) * c.format.size()
            <= c.data@.len(),
        row_of(c, x0, x1, y).len() == (x1 - x0) * c.format.size(),
{
    let w = c.width as int;
    let h = c.height as int;
    let s = c.format.size();
    assert(0 <= y * w && y * w + x1 <= w * h) by (nonlinear_arith)
        requires
            0 <= y < h,
            0 <= x1 <= w,
    ;
    let p = y * w + x0;
    let q = y * w + x1;
    let n = w * h;
    assert(0 <= p * s <= q * s <= n * s && q * s - p * s == (q - p) * s) by (nonlinear_arith)
        requires
            0 <= p <= q <= n,
            1 <= s,
    ;
}

proof fn lemma_crop_len(c: Canvas, x0: int, y0: int, x1: int, y1: int)
    requires
        c.wf(),
        0 <= x0 <= x1 <= c.width,
        0 <= y0 <= y1 <= c.height,
    ensures
        cropped(c, x0, y0, x1, y1).len() == (y1 - y0) * ((x1 - x0) * c.format.size()),
    decreases y1 - y0,
{
    let row = (x1 - x0) * c.format.size();
    if y0 < y1 {
        lemma_crop_len(c, x0, y0, x1, y1 - 1);
        lemma_row_in_canvas(c, x0, x1, y1 - 1);
        assert((y1 - 1 - y0) * row + row == (y1 - y0) * row) by (nonlinear_arith);
    } else {
        assert((y1 - y0) * row == 0) by (nonlinear_arith)
            requires
                y0 == y1,
        ;
    }
}

/// Cropping keeps every byte of every pixel in the box, row by row.
pub proof fn law_cropping_keeps_the_pixels(
    c: Canvas,
    x0: int,
    y0: int,
    x1: int,
    y1: int,
    x: int,
    y: int,
    k: int,
)
    requires
        c.wf(),
        0 <= x0 <= x < x1 <= c.width,
        0 <= y0 <= y < y1 <= c.height,
        0 <= k < c.format.size(),
    ensures
        cropped(c, x0, y0, x1, y1)[((y - y0) * (x1 - x0) + (x - x0)) * c.format.size() + k]
            == c.data@[(y * c.width + x) * c.format.size() + k],
    decreases y1 - y0,
{
    let s = c.format.size();
    let w = c.width as int;
    let row = (x1 - x0) * s;
    let all = cropped(c, x0, y0, x1, y1);
    let before = cropped(c, x0, y0, x1, y1 - 1);
    let at = ((y - y0) * (x1 - x0) + (x - x0)) * s + k;
    let i = (x - x0) * s + k;
    assert(at == (y - y0) * row + i) by (nonlinear_arith)
        requires
            row == (x1 - x0) * s,
            i == (x - x0) * s + k,
            at == ((y - y0) * (x1 - x0) + (x - x0)) * s + k,
    ;
    assert(0 <= i < row) by (nonlinear_arith)
        requires
            0 <= x - x0 < x1 - x0,
            0 <= k < s,
            row == (x1 - x0) * s,
            i == (x - x0) * s + k,
    ;
    lemma_crop_len(c, x0, y0, x1, y1 - 1);
    lemma_row_in_canvas(c, x0, x1, y1 - 1);
    if y == y1 - 1 {
        assert(at == before.len() + i);
        assert(all[at] == row_of(c, x0, x1, y)[i]);
        assert((y * w + x0) * s + i == (y * w + x) * s + k) by (nonlinear_arith)
            requires
                i == (x - x0) * s + k,
        ;
    } else {
        assert(0 <= at < (y1 - 1 - y0) * row) by (nonlinear_arith)
            requires
                at == (y - y0) * row + i,
                0 <= i < row,
                0 <= y - y0 < y1 - 1 - y0,
        ;
        assert(all[at] == before[at]);
        law_cropping_keeps_the_pixels(c, x0, y0, x1, y1 - 1, x, y, k);
    }
}

/// A trimmed glyph has all its ink, each pixel where it was drawn relative to
/// the cell's corner, and in the format that it was drawn in.
pub proof fn law_trimming_keeps_the_ink_in_place(
    c: Canvas,
    origin_x: i32,
    origin_y: i32,
    b: Bitmap,
    x: int,
    y: int,
    k: int,
)
    requires
        c.wf(),
        c.width <= 32767,
        c.height <= 32767,
        0 <= origin_x <= 32767,
        0 <= origin_y <= 32767,
        call_ensures(Canvas::trim, (&c, origin_x, origin_y), b),
        0 <= x < c.width,
        0 <= y < c.height,
        c.inked(x, y),
        0 <= k < c.format.size(),
    ensures
        b.format == c.format,
        0 <= x - origin_x - b.left < b.width,
        0 <= y - origin_y - b.top < b.height,
        b.data@[((y - origin_y - b.top) * b.width + (x - origin_x - b.left)) * c.format.size() + k]
            == c.data@[(y * c.width + x) * c.format.size() + k],
{
    let (x0, y0, x1, y1) = choose|x0: int, y0: int, x1: int, y1: int| #[trigger]
        ink_box(c, x0, y0, x1, y1) && b@ == (BitmapView {
            width: (x1 - x0) as u16,
            height: (y1 - y0) as u16,
            format: c.format,
            data: cropped(c, x0, y0, x1, y1),
            left: (x0 - origin_x) as i16,
            top: (y0 - origin_y) as i16,
        });
    law_cropping_keeps_the_pixels(c, x0, y0, x1, y1, x, y, k);
    assert(b@.left == x0 - origin_x);
    assert(b@.top == y0 - origin_y);
    assert(b@.width == x1 - x0);
}

/// A pixel that stands for one source pixel has its value.
proof fn lemma_single_box(b: BitmapView, k: int, x: int, y: int)
    ensures
        box_sum(b, k, x, x + 1, y, y + 1) == b.data[(y * b.width + x) * b.format.size() + k],
{
    assert(box_sum(b, k, x, x + 1, y, y) == 0);
    assert(row_sum(b, k, y, x, x) == 0);
    assert(row_sum(b, k, y, x, x + 1) == row_sum(b, k, y, x, x) + b.data[(y * b.width + (x + 1) - 1)
        * b.format.size() + k]);
}

/// Scaling a bitmap to the width that it has changes nothing.
pub proof fn law_scaling_to_the_same_width_changes_nothing(
    b: BitmapView,
    out: BitmapView,
    x: int,
    y: int,
    k: int,
)
    requires
        b.width >= 1,
        b.height >= 1,
        is_scaled(b, b.width, out),
        0 <= x < b.width,
        0 <= y < b.height,
        0 <= k < b.format.size(),
    ensures
        out.width == b.width && out.height == b.height && out.format == b.format,
        out.left == b.left && out.top == b.top,
        out.data[(y * b.width + x) * b.format.size() + k] == b.data[(y * b.width + x)
            * b.format.size() + k],
{
    let w = b.width as int;
    let h = b.height as int;
    lemma_exact_ratio(h, w);
    lemma_exact_ratio(b.left as int, w);
    lemma_exact_ratio(b.top as int, w);
    vstd::arithmetic::div_mod::lemma_div_by_multiple(x, w);
    vstd::arithmetic::div_mod::lemma_div_by_multiple(x + 1, w);
    vstd::arithmetic::div_mod::lemma_div_by_multiple(y, h);
    vstd::arithmetic::div_mod::lemma_div_by_multiple(y + 1, h);
    lemma_single_box(b, k, x, y);
    assert(box_start(x, w, w) == x);
    assert(box_stop(x, w, w) == x + 1);
    assert(box_start(y, h, h) == y);
    assert(box_stop(y, h, h) == y + 1);
    assert((x + 1 - x) * (y + 1 - y) == 1) by (nonlinear_arith);
    assert(scaled_height(b, b.width) == h);
    assert(out.data[(y * b.width + x) * b.format.size() + k] == scaled_sample(b, w, h, x, y, k));
}

proof fn lemma_exact_ratio(v: int, w: int)
    requires
        w >= 1,
    ensures
        nearest(v * w, w) == v,
{
    if v >= 0 {
        assert(v * w >= 0 && (2 * (v * w) + w) / (2 * w) == v) by (nonlinear_arith)
            requires
                v >= 0,
                w >= 1,
        ;
    } else {
        let u = -v;
        assert(v * w < 0 && -(v * w) == u * w) by (nonlinear_arith)
            requires
                v < 0,
                w >= 1,
                u == -v,
        ;
        assert((2 * (u * w) + w) / (2 * w) == u) by (nonlinear_arith)
            requires
                u >= 0,
                w >= 1,
        ;
    }
}

/// Scaling to half the width averages two by two pixels, each byte of them by
/// itself.
pub proof fn law_scaling_to_the_half_averages_four(
    b: BitmapView,
    half: u16,
    high: int,
    out: BitmapView,
    x: int,
    y: int,
    k: int,
)
    requires
        half >= 1,
        b.width == 2 * half,
        high >= 1,
        b.height == 2 * high,
        is_scaled(b, half, out),
        0 <= x < half,
        0 <= y < high,
        0 <= k < b.format.size(),
    ensures
        out.width == half && out.height == high,
        ({
            let s = b.format.size();
            let w = b.width as int;
            let four = b.data[(2 * y * w + 2 * x) * s + k] + b.data[(2 * y * w + 2 * x + 1) * s + k]
                + b.data[((2 * y + 1) * w + 2 * x) * s + k] + b.data[((2 * y + 1) * w + 2 * x + 1)
                * s + k];
            out.data[(y * half + x) * s + k] == four / 4
        }),
{
    let w = b.width as int;
    let h = b.height as int;
    let t = half as int;
    let s = b.format.size();
    assert(h * t == high * w) by (nonlinear_arith)
        requires
            w == 2 * t,
            h == 2 * high,
    ;
    lemma_exact_ratio(high, w);
    assert(x * w == (2 * x) * t && (x + 1) * w == (2 * x + 2) * t && y * h == (2 * y) * high && (y
        + 1) * h == (2 * y + 2) * high) by (nonlinear_arith)
        requires
            w == 2 * t,
            h == 2 * high,
    ;
    vstd::arithmetic::div_mod::lemma_div_by_multiple(2 * x, t);
    vstd::arithmetic::div_mod::lemma_div_by_multiple(2 * x + 2, t);
    vstd::arithmetic::div_mod::lemma_div_by_multiple(2 * y, high);
    vstd::arithmetic::div_mod::lemma_div_by_multiple(2 * y + 2, high);
    let x0 = 2 * x;
    let y0 = 2 * y;
    lemma_two_in_a_row(b, k, y0, x0);
    lemma_two_in_a_row(b, k, y0 + 1, x0);
    assert(box_sum(b, k, x0, x0 + 2, y0, y0) == 0);
    assert(box_sum(b, k, x0, x0 + 2, y0, y0 + 1) == row_sum(b, k, y0, x0, x0 + 2));
    assert(box_sum(b, k, x0, x0 + 2, y0, y0 + 2) == box_sum(b, k, x0, x0 + 2, y0, y0 + 1) + row_sum(
        b,
        k,
        y0 + 1,
        x0,
        x0 + 2,
    ));
    assert((x0 + 2 - x0) * (y0 + 2 - y0) == 4) by (nonlinear_arith);
    assert(out.data[(y * half + x) * s + k] == scaled_sample(b, t, high, x, y, k));
}

proof fn lemma_two_in_a_row(b: BitmapView, k: int, y: int, x: int)
    ensures
        row_sum(b, k, y, x, x + 2) == b.data[(y * b.width + x) * b.format.size() + k] + b.data[(y
            * b.width + x + 1) * b.format.size() + k],
{
    assert(row_sum(b, k, y, x, x) == 0);
    assert(row_sum(b, k, y, x, x + 1) == row_sum(b, k, y, x, x) + b.data[(y * b.width + (x + 1) - 1)
        * b.format.size() + k]);
    assert(row_sum(b, k, y, x, x + 2) == row_sum(b, k, y, x, x + 1) + b.data[(y * b.width + (x + 2)
        - 1) * b.format.size() + k]);
}

/// A glyph whose pixels are all white takes on the text's colour by its alpha,
/// pixel for pixel; one with a colour anywhere keeps its own.
pub proof fn law_only_the_colourless_are_tinted(b: Bitmap, out: Bitmap, i: int)
    requires
        filled(b@),
        call_ensures(tintable, (b,), out),
        0 <= i < b.width * b.height,
    ensures
        b.format is Alpha8 ==> out@ == b@,
        b.format is Bgra8 && (b.data@[4 * i] != b.data@[4 * i + 3] || b.data@[4 * i + 1]
            != b.data@[4 * i + 3] || b.data@[4 * i + 2] != b.data@[4 * i + 3]) ==> out@ == b@,
        b.format is Bgra8 && (forall|j: int|
            0 <= j < b.width * b.height ==> (#[trigger] b.data@[4 * j + 3]) == b.data@[4 * j]
                && b.data@[4 * j + 3] == b.data@[4 * j + 1] && b.data@[4 * j + 3] == b.data@[4 * j
                + 2]) ==> out.format is Alpha8 && out.data@[i] == b.data@[4 * i + 3],
        out.width == b.width && out.height == b.height && out.left == b.left && out.top == b.top,
{
    let v = b@;
    assert(v.data[4 * i + 3] == b.data@[4 * i + 3]);
}

/// A glyph is drawn with half a cell around it, two pixels at least, and its
/// baseline stands as far below the top of the cell as the metrics say.
pub proof fn law_room_around_a_glyph(
    metrics: CellMetrics,
    columns: u8,
    size: (usize, usize),
    above: i32,
    pad: i32,
)
    requires
        call_ensures(canvas_size, (metrics, columns), size),
        call_ensures(baseline_above, (metrics,), above),
        call_ensures(padding, (metrics,), pad),
    ensures
        metrics.width >= 4 ==> pad == metrics.width / 2,
        metrics.width < 4 ==> pad == 2,
        columns >= 1 ==> size.0 == metrics.width * columns + 2 * pad,
        columns == 0 ==> size.0 == metrics.width + 2 * pad,
        size.1 == metrics.height + 2 * pad,
        size.1 - above == metrics.baseline + pad,
{
}

/// Nothing drawn gives no glyph. What was drawn is never wider than its cells,
/// and is left as it is where it is not.
pub proof fn law_a_cluster_fits_its_cells(
    c: Canvas,
    metrics: CellMetrics,
    columns: u8,
    out: Option<Bitmap>,
    none: Option<Bitmap>,
)
    requires
        1 <= columns,
        metrics.width * columns <= u16::MAX,
        call_ensures(rasterize_cluster, (Some(c), metrics, columns), out),
        call_ensures(rasterize_cluster, (None::<Canvas>, metrics, columns), none),
    ensures
        none is None,
        out is Some,
        out->0.width <= metrics.width * columns,
{
}

} // verus!
