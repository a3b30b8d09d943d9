//! Synthesised box-drawing and block glyphs.
//!
//! Box-drawing characters are never taken from the font: a font draws them for
//! its own cell, which is not this terminal's cell, and the joins show seams.
//! Drawing them against the exact cell makes the seams impossible.

use vstd::prelude::*;

verus! {

/// Coverage bitmap: one byte of alpha per pixel, row by row, no padding.
#[derive(Debug, Clone, PartialEq, Eq)]
pub struct Coverage {
    pub width: u16,
    pub height: u16,
    pub data: Vec<u8>,
}

impl Coverage {
    /// The bitmap has one byte per pixel.
    pub open spec fn wf(self) -> bool {
        self.data@.len() == self.width * self.height
    }

    /// The alpha of a pixel.
    pub open spec fn pixel(self, x: int, y: int) -> u8 {
        self.data@[y * self.width + x]
    }

    fn new(width: u16, height: u16) -> (c: Coverage)
        ensures
            c.wf(),
            c.width == width,
            c.height == height,
            forall|x: int, y: int|
                0 <= x < width && 0 <= y < height ==> #[trigger] c.pixel(x, y) == 0,
    {
        proof {
            lemma_pixels(width as int, height as int);
        }
        let c = Coverage { width, height, data: vec![0u8; width as usize * height as usize] };
        assert forall|x: int, y: int| 0 <= x < width && 0 <= y < height implies #[trigger] c.pixel(
            x,
            y,
        ) == 0 by {
            lemma_pixel_index(x, y, width as int, height as int);
            assert(vstd::pervasive::cloned(0u8, c.data@[y * width + x]));
        }
        c
    }

    /// The alpha of a pixel; nothing outside the bitmap.
    pub fn get(&self, x: u16, y: u16) -> (alpha: u8)
        requires
            self.wf(),
        ensures
            alpha == if x < self.width && y < self.height {
                self.pixel(x as int, y as int)
            } else {
                0
            },
    {
        if x >= self.width || y >= self.height {
            return 0;
        }
        proof {
            lemma_pixels(self.width as int, self.height as int);
            lemma_pixel_index(x as int, y as int, self.width as int, self.height as int);
        }
        self.data[y as usize * self.width as usize + x as usize]
    }

    /// Raises a pixel to `value`. Two strokes crossing are no brighter than
    /// either alone.
    fn put(&mut self, x: u16, y: u16, value: u8)
        requires
            old(self).wf(),
            x < old(self).width,
            y < old(self).height,
        ensures
            final(self).wf(),
            final(self).width == old(self).width,
            final(self).height == old(self).height,
            forall|i: int, j: int|
                0 <= i < old(self).width && 0 <= j < old(self).height ==> #[trigger] final(self).pixel(i, j) == if i == x && j == y {
                    larger(old(self).pixel(i, j), value)
                } else {
                    old(self).pixel(i, j)
                },
    {
        proof {
            lemma_pixels(self.width as int, self.height as int);
            lemma_pixel_index(x as int, y as int, self.width as int, self.height as int);
        }
        let at: usize = y as usize * self.width as usize + x as usize;
        if self.data[at] < value {
            self.data.set(at, value);
        }
        assert forall|i: int, j: int|
            0 <= i < old(self).width && 0 <= j < old(self).height implies #[trigger] self.pixel(i, j)
            == if i == x && j == y {
            larger(old(self).pixel(i, j), value)
        } else {
            old(self).pixel(i, j)
        } by {
            lemma_pixel_index(i, j, self.width as int, self.height as int);
            lemma_pixel_distinct(i, j, x as int, y as int, self.width as int);
        }
    }

    /// Inks every pixel of `x0..x1` by `y0..y1` that the bitmap has.
    fn fill_rect(&mut self, x0: i32, y0: i32, x1: i32, y1: i32)
        requires
            old(self).wf(),
        ensures
            final(self).wf(),
            final(self).width == old(self).width,
            final(self).height == old(self).height,
            forall|x: int, y: int|
                0 <= x < old(self).width && 0 <= y < old(self).height ==> #[trigger] final(self).pixel(x, y) == if x0 <= x < x1 && y0 <= y < y1 {
                    255
                } else {
                    old(self).pixel(x, y)
                },
    {
        let x_start: u16 = clamped(x0, self.width);
        let x_stop: u16 = clamped(x1, self.width);
        let y_start: u16 = clamped(y0, self.height);
        let y_stop: u16 = clamped(y1, self.height);
        let mut y: u16 = y_start;
        while y < y_stop
            invariant
                self.wf(),
                self.width == old(self).width,
                self.height == old(self).height,
                y_start <= y,
                y <= y_stop || y == y_start,
                y_stop <= self.height,
                x_stop <= self.width,
                forall|i: int, j: int|
                    0 <= i < old(self).width && 0 <= j < old(self).height ==> #[trigger] self.pixel(
                        i,
                        j,
                    ) == if x_start <= i < x_stop && y_start <= j < y {
                        255
                    } else {
                        old(self).pixel(i, j)
                    },
            decreases y_stop - y,
        {
            let mut x: u16 = x_start;
            while x < x_stop
                invariant
                    self.wf(),
                    self.width == old(self).width,
                    self.height == old(self).height,
                    y_start <= y < y_stop <= self.height,
                    x_start <= x,
                    x <= x_stop || x == x_start,
                    x_stop <= self.width,
                    forall|i: int, j: int|
                        0 <= i < old(self).width && 0 <= j < old(self).height
                            ==> #[trigger] self.pixel(i, j) == if (x_start <= i < x_stop && y_start
                            <= j < y) || (x_start <= i < x && j == y) {
                            255
                        } else {
                            old(self).pixel(i, j)
                        },
                decreases x_stop - x,
            {
                self.put(x, y, 255);
                x += 1;
            }
            y += 1;
        }
    }

    /// Whether nothing is inked.
    pub fn is_blank(&self) -> (yes: bool)
        requires
            self.wf(),
        ensures
            yes == forall|i: int| 0 <= i < self.data@.len() ==> self.data@[i] == 0,
    {
        let mut i: usize = 0;
        while i < self.data.len()
            invariant
                i <= self.data@.len(),
                forall|j: int| 0 <= j < i ==> self.data@[j] == 0,
            decreases self.data@.len() - i,
        {
            if self.data[i] != 0 {
                return false;
            }
            i += 1;
        }
        true
    }
}

/// The larger of two alphas.
pub open spec fn larger(a: u8, b: u8) -> u8 {
    if a < b {
        b
    } else {
        a
    }
}

/// `v` moved into `0..=limit`.
fn clamped(v: i32, limit: u16) -> (r: u16)
    ensures
        r == if v < 0 {
            0
        } else if v > limit {
            limit as int
        } else {
            v as int
        },
{
    if v < 0 {
        0
    } else if v > limit as i32 {
        limit
    } else {
        v as u16
    }
}

proof fn lemma_pixels(w: int, h: int)
    requires
        0 <= w <= 65535,
        0 <= h <= 65535,
    ensures
        0 <= w * h <= 65535 * 65535,
{
    assert(0 <= w * h <= 65535 * 65535) by (nonlinear_arith)
        requires
            0 <= w <= 65535,
            0 <= h <= 65535,
    ;
}

/// A pixel inside the bitmap has a place in its data.
pub proof fn lemma_pixel_index(x: int, y: int, w: int, h: int)
    requires
        0 <= x < w,
        0 <= y < h,
    ensures
        0 <= y * w,
        0 <= y * w + x < w * h,
{
    assert(0 <= y * w && 0 <= y * w + x < w * h) by (nonlinear_arith)
        requires
            0 <= x < w,
            0 <= y < h,
    ;
}

/// Different pixels have different places.
pub proof fn lemma_pixel_distinct(i: int, j: int, x: int, y: int, w: int)
    requires
        0 <= i < w,
        0 <= x < w,
    ensures
        j * w + i == y * w + x <==> i == x && j == y,
{
    if j * w + i == y * w + x {
        assert(j == y) by (nonlinear_arith)
            requires
                j * w + i == y * w + x,
                0 <= i < w,
                0 <= x < w,
        ;
    }
}

/// What kind of figure a box-drawing character is.
#[derive(Debug, Clone, Copy, PartialEq, Eq, Structural)]
pub enum Shape {
    Line,
    Arc,
    /// Upper right to lower left.
    Slash,
    /// Upper left to lower right.
    Backslash,
    /// Both diagonals.
    Cross,
}

/// How a box-drawing character is drawn. A weight is 0 none, 1 light, 2 heavy,
/// 3 double.
#[derive(Debug, Clone, Copy, PartialEq, Eq, Structural)]
pub struct BoxSpec {
    pub shape: Shape,
    pub up: u8,
    pub down: u8,
    pub left: u8,
    pub right: u8,
    /// 0 for a solid line, else the number of dashes across the cell.
    pub dashes: u8,
}

/// U+2500 to U+257F, one hexadecimal digit each for shape, dashes and the
/// weights up, down, left and right, as the characters' Unicode names give
/// them.
pub const BOX_TABLE: [u32; 128] = [
    0x000011, 0x000022, 0x001100, 0x002200, 0x030011, 0x030022, 0x031100, 0x032200,  // U+2500
    0x040011, 0x040022, 0x041100, 0x042200, 0x000101, 0x000102, 0x000201, 0x000202,  // U+2508
    0x000110, 0x000120, 0x000210, 0x000220, 0x001001, 0x001002, 0x002001, 0x002002,  // U+2510
    0x001010, 0x001020, 0x002010, 0x002020, 0x001101, 0x001102, 0x002101, 0x001201,  // U+2518
    0x002201, 0x002102, 0x001202, 0x002202, 0x001110, 0x001120, 0x002110, 0x001210,  // U+2520
    0x002210, 0x002120, 0x001220, 0x002220, 0x000111, 0x000121, 0x000112, 0x000122,  // U+2528
    0x000211, 0x000221, 0x000212, 0x000222, 0x001011, 0x001021, 0x001012, 0x001022,  // U+2530
    0x002011, 0x002021, 0x002012, 0x002022, 0x001111, 0x001121, 0x001112, 0x001122,  // U+2538
    0x002111, 0x001211, 0x002211, 0x002121, 0x002112, 0x001221, 0x001212, 0x002122,  // U+2540
    0x001222, 0x002221, 0x002212, 0x002222, 0x020011, 0x020022, 0x021100, 0x022200,  // U+2548
    0x000033, 0x003300, 0x000103, 0x000301, 0x000303, 0x000130, 0x000310, 0x000330,  // U+2550
    0x001003, 0x003001, 0x003003, 0x001030, 0x003010, 0x003030, 0x001103, 0x003301,  // U+2558
    0x003303, 0x001130, 0x003310, 0x003330, 0x000133, 0x000311, 0x000333, 0x001033,  // U+2560
    0x003011, 0x003033, 0x001133, 0x003311, 0x003333, 0x100101, 0x100110, 0x101010,  // U+2568
    0x101001, 0x200000, 0x300000, 0x400000, 0x000010, 0x001000, 0x000001, 0x000100,  // U+2570
    0x000020, 0x002000, 0x000002, 0x000200, 0x000012, 0x001200, 0x000021, 0x002100,  // U+2578
];

/// What a table entry says.
pub open spec fn decoded(entry: u32) -> BoxSpec {
    BoxSpec {
        shape: if entry / 0x10_0000 == 0 {
            Shape::Line
        } else if entry / 0x10_0000 == 1 {
            Shape::Arc
        } else if entry / 0x10_0000 == 2 {
            Shape::Slash
        } else if entry / 0x10_0000 == 3 {
            Shape::Backslash
        } else {
            Shape::Cross
        },
        dashes: (entry / 0x1_0000 % 16) as u8,
        up: (entry / 0x1000 % 16) as u8,
        down: (entry / 0x100 % 16) as u8,
        left: (entry / 0x10 % 16) as u8,
        right: (entry % 16) as u8,
    }
}

fn decode(entry: u32) -> (b: BoxSpec)
    ensures
        b == decoded(entry),
{
    let kind: u32 = entry / 0x10_0000;
    BoxSpec {
        shape: if kind == 0 {
            Shape::Line
        } else if kind == 1 {
            Shape::Arc
        } else if kind == 2 {
            Shape::Slash
        } else if kind == 3 {
            Shape::Backslash
        } else {
            Shape::Cross
        },
        dashes: (entry / 0x1_0000 % 16) as u8,
        up: (entry / 0x1000 % 16) as u8,
        down: (entry / 0x100 % 16) as u8,
        left: (entry / 0x10 % 16) as u8,
        right: (entry % 16) as u8,
    }
}

/// The characters drawn here. Anything else is the font's job.
pub open spec fn synthesised(ch: char) -> bool {
    '\u{2500}' <= ch <= '\u{259F}'
}

/// Whether this character is drawn here rather than by the font.
pub fn is_synthesised(ch: char) -> (yes: bool)
    ensures
        yes == synthesised(ch),
{
    '\u{2500}' <= ch && ch <= '\u{259F}'
}

/// The thickness of a light stroke, from the cell height.
pub open spec fn light(height: int) -> int {
    if (height + 8) / 16 > 1 {
        (height + 8) / 16
    } else {
        1
    }
}

fn light_stroke(height: u16) -> (t: i32)
    ensures
        t == light(height as int),
        1 <= t <= 4096,
{
    let t: i32 = (height as i32 + 8) / 16;
    if t > 1 {
        t
    } else {
        1
    }
}

/// One straight stroke: how far its centre lies from the cell's centre, and how
/// thick it is.
#[derive(Debug, Clone, Copy, PartialEq, Eq, Structural)]
pub struct Rail {
    pub offset: i32,
    pub thickness: i32,
}

/// The rails that a weight is drawn as. A double line is two thin rails.
pub open spec fn rails_of(weight: u8, light: int) -> Seq<Rail> {
    if weight == 1 {
        seq![Rail { offset: 0, thickness: light as i32 }]
    } else if weight == 2 {
        seq![Rail { offset: 0, thickness: (2 * light) as i32 }]
    } else if weight == 3 {
        seq![
            Rail { offset: (-light) as i32, thickness: light as i32 },
            Rail { offset: light as i32, thickness: light as i32 },
        ]
    } else {
        Seq::empty()
    }
}

/// Rails small enough to compute with.
spec fn modest(rails: Seq<Rail>) -> bool {
    forall|i: int|
        0 <= i < rails.len() ==> -4096 <= (#[trigger] rails[i]).offset <= 4096 && 1
            <= rails[i].thickness <= 8192
}

fn rails(weight: u8, light: i32) -> (v: Vec<Rail>)
    requires
        1 <= light <= 4096,
    ensures
        v@ == rails_of(weight, light as int),
        modest(v@),
{
    let mut v: Vec<Rail> = Vec::new();
    if weight == 1 {
        v.push(Rail { offset: 0, thickness: light });
    } else if weight == 2 {
        v.push(Rail { offset: 0, thickness: light * 2 });
    } else if weight == 3 {
        v.push(Rail { offset: -light, thickness: light });
        v.push(Rail { offset: light, thickness: light });
    }
    assert(v@ =~= rails_of(weight, light as int));
    v
}

/// Where a rail begins across its direction.
pub open spec fn rail_start(centre: int, r: Rail) -> int {
    centre + r.offset - r.thickness / 2
}

/// The lowest pixel of any rail, or the centre.
pub open spec fn lowest(centre: int, rails: Seq<Rail>) -> int
    decreases rails.len(),
{
    if rails.len() == 0 {
        centre
    } else {
        let rest = lowest(centre, rails.drop_last());
        let start = rail_start(centre, rails.last());
        if start < rest {
            start
        } else {
            rest
        }
    }
}

/// The pixel after the highest of any rail, or the centre.
pub open spec fn highest(centre: int, rails: Seq<Rail>) -> int
    decreases rails.len(),
{
    if rails.len() == 0 {
        centre
    } else {
        let rest = highest(centre, rails.drop_last());
        let stop = rail_start(centre, rails.last()) + rails.last().thickness;
        if stop > rest {
            stop
        } else {
            rest
        }
    }
}

/// The outer bounds of two runs of rails.
fn span(centre: i32, a: &Vec<Rail>, b: &Vec<Rail>) -> (bounds: (i32, i32))
    requires
        0 <= centre <= 65535,
        modest(a@),
        modest(b@),
    ensures
        bounds.0 == lowest(centre as int, a@ + b@),
        bounds.1 == highest(centre as int, a@ + b@),
        -20000 <= bounds.0 <= centre <= bounds.1 <= 90000,
{
    let mut lo: i32 = centre;
    let mut hi: i32 = centre;
    let ghost all = a@ + b@;
    let n: usize = a.len();
    let mut i: usize = 0;
    assert(all.take(0) =~= Seq::empty());
    while i < n
        invariant
            i <= n == a@.len(),
            all == a@ + b@,
            0 <= centre <= 65535,
            modest(a@),
            lo == lowest(centre as int, all.take(i as int)),
            hi == highest(centre as int, all.take(i as int)),
            -20000 <= lo <= centre <= hi <= 90000,
        decreases n - i,
    {
        let r: Rail = a[i];
        assert(all.take(i + 1).drop_last() =~= all.take(i as int));
        assert(all.take(i + 1).last() == r);
        let start: i32 = centre + r.offset - r.thickness / 2;
        if start < lo {
            lo = start;
        }
        if start + r.thickness > hi {
            hi = start + r.thickness;
        }
        i += 1;
    }
    let m: usize = b.len();
    let mut j: usize = 0;
    while j < m
        invariant
            j <= m == b@.len(),
            n == a@.len(),
            all == a@ + b@,
            0 <= centre <= 65535,
            modest(b@),
            lo == lowest(centre as int, all.take(n + j)),
            hi == highest(centre as int, all.take(n + j)),
            -20000 <= lo <= centre <= hi <= 90000,
        decreases m - j,
    {
        let r: Rail = b[j];
        assert(all.take(n + j + 1).drop_last() =~= all.take(n + j));
        assert(all.take(n + j + 1).last() == r);
        let start: i32 = centre + r.offset - r.thickness / 2;
        if start < lo {
            lo = start;
        }
        if start + r.thickness > hi {
            hi = start + r.thickness;
        }
        j += 1;
    }
    assert(all.take(n + m) =~= all);
    (lo, hi)
}

/// Whether a rail is one of some.
fn rail_among(rails: &Vec<Rail>, r: Rail) -> (yes: bool)
    ensures
        yes == rails@.contains(r),
{
    let mut i: usize = 0;
    while i < rails.len()
        invariant
            i <= rails@.len(),
            forall|j: int| 0 <= j < i ==> #[trigger] rails@[j] != r,
        decreases rails@.len() - i,
    {
        if rails[i] == r {
            return true;
        }
        i += 1;
    }
    false
}

/// One stretch of ink: `from..to` along its direction, `lo..hi` across it.
#[derive(Debug, Clone, Copy, PartialEq, Eq, Structural)]
pub struct Run {
    pub horizontal: bool,
    pub from: i32,
    pub to: i32,
    pub lo: i32,
    pub hi: i32,
}

/// The stretch of a rail that starts at the cell's left or top edge. It crosses
/// the cell where the same rail stands on the other side, and otherwise ends at
/// the hub of the perpendicular strokes: past it where the rail is on the side
/// away from the opening.
pub open spec fn near_run(
    horizontal: bool,
    r: Rail,
    opposite: Seq<Rail>,
    centre: int,
    hub: (int, int),
    extent: int,
) -> Run {
    let lo = rail_start(centre, r);
    Run {
        horizontal,
        from: 0,
        to: (if opposite.contains(r) {
            extent
        } else if r.offset <= 0 {
            hub.1
        } else {
            hub.0
        }) as i32,
        lo: lo as i32,
        hi: (lo + r.thickness) as i32,
    }
}

/// The stretch of a rail that ends at the cell's right or bottom edge.
pub open spec fn far_run(
    horizontal: bool,
    r: Rail,
    centre: int,
    hub: (int, int),
    extent: int,
) -> Run {
    let lo = rail_start(centre, r);
    Run {
        horizontal,
        from: (if r.offset <= 0 {
            hub.0
        } else {
            hub.1
        }) as i32,
        to: extent as i32,
        lo: lo as i32,
        hi: (lo + r.thickness) as i32,
    }
}

/// The runs of the rails on the left or upper side.
pub open spec fn near_runs(
    horizontal: bool,
    rails: Seq<Rail>,
    opposite: Seq<Rail>,
    centre: int,
    hub: (int, int),
    extent: int,
) -> Seq<Run> {
    rails.map_values(|r: Rail| near_run(horizontal, r, opposite, centre, hub, extent))
}

/// The runs of the rails on the right or lower side, without those that are
/// drawn across the cell from the other side already.
pub open spec fn far_runs(
    horizontal: bool,
    rails: Seq<Rail>,
    opposite: Seq<Rail>,
    centre: int,
    hub: (int, int),
    extent: int,
) -> Seq<Run>
    decreases rails.len(),
{
    if rails.len() == 0 {
        Seq::empty()
    } else {
        let rest = far_runs(horizontal, rails.drop_last(), opposite, centre, hub, extent);
        if opposite.contains(rails.last()) {
            rest
        } else {
            rest.push(far_run(horizontal, rails.last(), centre, hub, extent))
        }
    }
}

/// Every stretch of ink of a line figure.
pub open spec fn line_runs(b: BoxSpec, w: int, h: int) -> Seq<Run> {
    let t = light(h);
    let up = rails_of(b.up, t);
    let down = rails_of(b.down, t);
    let left = rails_of(b.left, t);
    let right = rails_of(b.right, t);
    let hub_x = (lowest(w / 2, up + down), highest(w / 2, up + down));
    let hub_y = (lowest(h / 2, left + right), highest(h / 2, left + right));
    near_runs(true, left, right, h / 2, hub_x, w) + far_runs(true, right, left, h / 2, hub_x, w)
        + near_runs(false, up, down, w / 2, hub_y, h) + far_runs(false, down, up, w / 2, hub_y, h)
}

/// Where dash `i` of `n` begins: `i` periods from the edge, to the nearest
/// pixel.
pub open spec fn dash_start(n: int, extent: int, i: int) -> int {
    (2 * i * extent + n) / (2 * n)
}

/// Where dash `i` of `n` ends: six tenths of a period after it begins, to the
/// nearest pixel.
pub open spec fn dash_stop(n: int, extent: int, i: int) -> int {
    (2 * (5 * i + 3) * extent + 5 * n) / (10 * n)
}

/// Whether a position along a stroke is inked. Dashes are laid out across the
/// whole cell, so that dashed cells line up into one pattern.
pub open spec fn dash_on(dashes: u8, extent: int, at: int) -> bool {
    dashes == 0 || exists|i: int|
        0 <= i < dashes && #[trigger] dash_start(dashes as int, extent, i) <= at < dash_stop(
            dashes as int,
            extent,
            i,
        )
}

/// Whether a run inks a pixel.
pub open spec fn run_inks(run: Run, dashes: u8, w: int, h: int, x: int, y: int) -> bool {
    if run.horizontal {
        run.from <= x < run.to && run.lo <= y < run.hi && dash_on(dashes, w, x)
    } else {
        run.from <= y < run.to && run.lo <= x < run.hi && dash_on(dashes, h, y)
    }
}

/// Whether any of the runs inks a pixel.
pub open spec fn runs_ink(runs: Seq<Run>, dashes: u8, w: int, h: int, x: int, y: int) -> bool {
    exists|k: int| 0 <= k < runs.len() && run_inks(#[trigger] runs[k], dashes, w, h, x, y)
}

fn push_near(
    runs: &mut Vec<Run>,
    horizontal: bool,
    rails: &Vec<Rail>,
    opposite: &Vec<Rail>,
    centre: i32,
    hub: (i32, i32),
    extent: i32,
)
    requires
        0 <= centre <= 65535,
        modest(rails@),
    ensures
        final(runs)@ == old(runs)@ + near_runs(
            horizontal,
            rails@,
            opposite@,
            centre as int,
            (hub.0 as int, hub.1 as int),
            extent as int,
        ),
{
    let ghost wanted = near_runs(
        horizontal,
        rails@,
        opposite@,
        centre as int,
        (hub.0 as int, hub.1 as int),
        extent as int,
    );
    let mut i: usize = 0;
    while i < rails.len()
        invariant
            i <= rails@.len(),
            0 <= centre <= 65535,
            modest(rails@),
            wanted == near_runs(
                horizontal,
                rails@,
                opposite@,
                centre as int,
                (hub.0 as int, hub.1 as int),
                extent as int,
            ),
            runs@ == old(runs)@ + wanted.take(i as int),
        decreases rails@.len() - i,
    {
        let r: Rail = rails[i];
        let lo: i32 = centre + r.offset - r.thickness / 2;
        let to: i32 = if rail_among(opposite, r) {
            extent
        } else if r.offset <= 0 {
            hub.1
        } else {
            hub.0
        };
        let ghost sofar = runs@;
        runs.push(Run { horizontal, from: 0, to, lo, hi: lo + r.thickness });
        i += 1;
        assert(wanted.take(i as int) =~= wanted.take(i - 1).push(wanted[i - 1]));
        assert(runs@ =~= old(runs)@ + wanted.take(i as int));
    }
    assert(wanted.take(i as int) =~= wanted);
}

fn push_far(
    runs: &mut Vec<Run>,
    horizontal: bool,
    rails: &Vec<Rail>,
    opposite: &Vec<Rail>,
    centre: i32,
    hub: (i32, i32),
    extent: i32,
)
    requires
        0 <= centre <= 65535,
        modest(rails@),
    ensures
        final(runs)@ == old(runs)@ + far_runs(
            horizontal,
            rails@,
            opposite@,
            centre as int,
            (hub.0 as int, hub.1 as int),
            extent as int,
        ),
{
    let mut i: usize = 0;
    assert(rails@.take(0) =~= Seq::empty());
    assert(runs@ =~= old(runs)@ + Seq::<Run>::empty());
    while i < rails.len()
        invariant
            i <= rails@.len(),
            0 <= centre <= 65535,
            modest(rails@),
            runs@ == old(runs)@ + far_runs(
                horizontal,
                rails@.take(i as int),
                opposite@,
                centre as int,
                (hub.0 as int, hub.1 as int),
                extent as int,
            ),
        decreases rails@.len() - i,
    {
        let r: Rail = rails[i];
        assert(rails@.take(i + 1).drop_last() =~= rails@.take(i as int));
        if !rail_among(opposite, r) {
            let lo: i32 = centre + r.offset - r.thickness / 2;
            let from: i32 = if r.offset <= 0 {
                hub.0
            } else {
                hub.1
            };
            let ghost sofar = runs@;
            runs.push(Run { horizontal, from, to: extent, lo, hi: lo + r.thickness });
            assert(runs@ =~= old(runs)@ + far_runs(
                horizontal,
                rails@.take(i + 1),
                opposite@,
                centre as int,
                (hub.0 as int, hub.1 as int),
                extent as int,
            ));
        }
        i += 1;
    }
    assert(rails@.take(i as int) =~= rails@);
}

/// The first pixel of a dash.
fn dash_from(n: i32, extent: i32, i: i32) -> (at: i32)
    requires
        1 <= n <= 255,
        0 <= i < n,
        0 <= extent <= 65535,
    ensures
        at == dash_start(n as int, extent as int, i as int),
{
    proof {
        assert(0 <= 2 * i * extent <= 2 * 255 * 65535) by (nonlinear_arith)
            requires
                0 <= i < 255,
                0 <= extent <= 65535,
        ;
    }
    (2 * i * extent + n) / (2 * n)
}

/// The pixel after a dash.
fn dash_to(n: i32, extent: i32, i: i32) -> (at: i32)
    requires
        1 <= n <= 255,
        0 <= i < n,
        0 <= extent <= 65535,
    ensures
        at == dash_stop(n as int, extent as int, i as int),
{
    proof {
        assert(0 <= 2 * (5 * i + 3) * extent <= 2 * 1273 * 65535) by (nonlinear_arith)
            requires
                0 <= i < 255,
                0 <= extent <= 65535,
        ;
    }
    (2 * (5 * i + 3) * extent + 5 * n) / (10 * n)
}

/// Inks one run, honouring the dash pattern.
fn draw_run(cov: &mut Coverage, run: Run, dashes: u8)
    requires
        old(cov).wf(),
    ensures
        final(cov).wf(),
        final(cov).width == old(cov).width,
        final(cov).height == old(cov).height,
        forall|x: int, y: int|
            0 <= x < old(cov).width && 0 <= y < old(cov).height ==> #[trigger] final(cov).pixel(x, y)
                == if run_inks(run, dashes, old(cov).width as int, old(cov).height as int, x, y) {
                255
            } else {
                old(cov).pixel(x, y)
            },
{
    if dashes == 0 {
        if run.horizontal {
            cov.fill_rect(run.from, run.lo, run.to, run.hi);
        } else {
            cov.fill_rect(run.lo, run.from, run.hi, run.to);
        }
        return ;
    }
    let n: i32 = dashes as i32;
    let extent: i32 = if run.horizontal {
        cov.width as i32
    } else {
        cov.height as i32
    };
    let ghost w = cov.width as int;
    let ghost h = cov.height as int;
    let mut i: i32 = 0;
    while i < n
        invariant
            0 <= i <= n == dashes <= 255,
            n >= 1,
            cov.wf(),
            cov.width == old(cov).width == w,
            cov.height == old(cov).height == h,
            0 <= extent <= 65535,
            extent == if run.horizontal {
                w
            } else {
                h
            },
            forall|x: int, y: int|
                0 <= x < w && 0 <= y < h ==> #[trigger] cov.pixel(x, y) == if first_dashes_ink(
                    run,
                    i as int,
                    n as int,
                    extent as int,
                    x,
                    y,
                ) {
                    255
                } else {
                    old(cov).pixel(x, y)
                },
        decreases n - i,
    {
        let start: i32 = dash_from(n, extent, i);
        let stop: i32 = dash_to(n, extent, i);
        let from: i32 = if run.from > start {
            run.from
        } else {
            start
        };
        let to: i32 = if run.to < stop {
            run.to
        } else {
            stop
        };
        let ghost before = *cov;
        if run.horizontal {
            cov.fill_rect(from, run.lo, to, run.hi);
        } else {
            cov.fill_rect(run.lo, from, run.hi, to);
        }
        assert forall|x: int, y: int| 0 <= x < w && 0 <= y < h implies #[trigger] cov.pixel(x, y)
            == if first_dashes_ink(run, i + 1, n as int, extent as int, x, y) {
            255
        } else {
            old(cov).pixel(x, y)
        } by {
            let _ = before.pixel(x, y);
            let at = if run.horizontal {
                x
            } else {
                y
            };
            if first_dashes_ink(run, i as int, n as int, extent as int, x, y) {
                let k = choose|k: int|
                    0 <= k < i && #[trigger] dash_start(n as int, extent as int, k) <= at
                        < dash_stop(n as int, extent as int, k);
                assert(0 <= k < i + 1 && dash_start(n as int, extent as int, k) <= at);
            }
            if dash_start(n as int, extent as int, i as int) <= at < dash_stop(
                n as int,
                extent as int,
                i as int,
            ) {
                assert(0 <= i < i + 1);
            }
        }
        i += 1;
    }
}

/// Whether one of the first `count` dashes of a run inks a pixel.
spec fn first_dashes_ink(run: Run, count: int, n: int, extent: int, x: int, y: int) -> bool {
    let at = if run.horizontal {
        x
    } else {
        y
    };
    let across = if run.horizontal {
        y
    } else {
        x
    };
    run.from <= at < run.to && run.lo <= across < run.hi && exists|i: int|
        0 <= i < count && #[trigger] dash_start(n, extent, i) <= at < dash_stop(n, extent, i)
}

/// Draws a figure made of straight strokes.
fn draw_lines(b: BoxSpec, width: u16, height: u16) -> (cov: Coverage)
    ensures
        cov.wf(),
        cov.width == width,
        cov.height == height,
        forall|x: int, y: int|
            0 <= x < width && 0 <= y < height ==> #[trigger] cov.pixel(x, y) == if runs_ink(
                line_runs(b, width as int, height as int),
                b.dashes,
                width as int,
                height as int,
                x,
                y,
            ) {
                255u8
            } else {
                0u8
            },
{
    let mut cov = Coverage::new(width, height);
    let t: i32 = light_stroke(height);
    let (w, h): (i32, i32) = (width as i32, height as i32);
    let (cx, cy): (i32, i32) = (w / 2, h / 2);
    let up = rails(b.up, t);
    let down = rails(b.down, t);
    let left = rails(b.left, t);
    let right = rails(b.right, t);
    let hub_x = span(cx, &up, &down);
    let hub_y = span(cy, &left, &right);
    let mut runs: Vec<Run> = Vec::new();
    push_near(&mut runs, true, &left, &right, cy, hub_x, w);
    push_far(&mut runs, true, &right, &left, cy, hub_x, w);
    push_near(&mut runs, false, &up, &down, cx, hub_y, h);
    push_far(&mut runs, false, &down, &up, cx, hub_y, h);
    assert(runs@ =~= line_runs(b, w as int, h as int));
    let mut k: usize = 0;
    while k < runs.len()
        invariant
            k <= runs@.len(),
            cov.wf(),
            cov.width == width,
            cov.height == height,
            forall|x: int, y: int|
                0 <= x < width && 0 <= y < height ==> #[trigger] cov.pixel(x, y) == if runs_ink(
                    runs@.take(k as int),
                    b.dashes,
                    width as int,
                    height as int,
                    x,
                    y,
                ) {
                    255u8
                } else {
                    0u8
                },
        decreases runs@.len() - k,
    {
        let ghost before = cov;
        draw_run(&mut cov, runs[k], b.dashes);
        assert forall|x: int, y: int| 0 <= x < width && 0 <= y < height implies #[trigger] cov.pixel(
            x,
            y,
        ) == if runs_ink(runs@.take(k + 1), b.dashes, width as int, height as int, x, y) {
            255u8
        } else {
            0u8
        } by {
            let _ = before.pixel(x, y);
            let old_runs = runs@.take(k as int);
            let new_runs = runs@.take(k + 1);
            if runs_ink(old_runs, b.dashes, width as int, height as int, x, y) {
                let i = choose|i: int|
                    0 <= i < old_runs.len() && run_inks(
                        #[trigger] old_runs[i],
                        b.dashes,
                        width as int,
                        height as int,
                        x,
                        y,
                    );
                assert(new_runs[i] == old_runs[i]);
            }
            if runs_ink(new_runs, b.dashes, width as int, height as int, x, y) {
                let i = choose|i: int|
                    0 <= i < new_runs.len() && run_inks(
                        #[trigger] new_runs[i],
                        b.dashes,
                        width as int,
                        height as int,
                        x,
                        y,
                    );
                if i < k {
                    assert(old_runs[i] == new_runs[i]);
                } else {
                    assert(new_runs[i] == runs@[k as int]);
                }
            }
            if run_inks(runs@[k as int], b.dashes, width as int, height as int, x, y) {
                assert(new_runs[k as int] == runs@[k as int]);
            }
        }
        k += 1;
    }
    assert(runs@.take(k as int) =~= runs@);
    cov
}

/// `255 * (1 + stroke) - (2 * v - 1)`: twice the ink still left when alpha
/// level `v` is just reached.
pub open spec fn slack(stroke: int, v: int) -> int {
    255 * (1 + stroke) - (2 * v - 1)
}

/// Whether a pixel at squared double distance `num / den` from a line of this
/// thickness rounds to alpha `v` or more: alpha falls off linearly over one
/// pixel at the stroke's edge.
pub open spec fn line_reaches(num: int, den: int, stroke: int, v: int) -> bool {
    let p = slack(stroke, v);
    p >= 0 && 255 * 255 * num <= p * p * den
}

/// The largest alpha up to `v` that such a pixel reaches.
pub open spec fn line_level(num: int, den: int, stroke: int, v: int) -> int
    decreases v,
{
    if v <= 0 {
        0
    } else if line_reaches(num, den, stroke, v) {
        v
    } else {
        line_level(num, den, stroke, v - 1)
    }
}

/// How far a pixel's centre lies from the falling diagonal, in units of half
/// the cell's area over the diagonal's length.
pub open spec fn fall_distance(x: int, y: int, w: int, h: int) -> int {
    let d = (2 * x + 1) * h - (2 * y + 1) * w;
    if d < 0 {
        -d
    } else {
        d
    }
}

/// How far a pixel's centre lies from the rising diagonal, in the same units.
pub open spec fn rise_distance(x: int, y: int, w: int, h: int) -> int {
    let d = (2 * x + 1) * h + (2 * y + 1) * w - 2 * w * h;
    if d < 0 {
        -d
    } else {
        d
    }
}

/// The distance that counts for a diagonal figure.
pub open spec fn diagonal_distance(shape: Shape, x: int, y: int, w: int, h: int) -> int {
    let fall = fall_distance(x, y, w, h);
    let rise = rise_distance(x, y, w, h);
    match shape {
        Shape::Backslash => fall,
        Shape::Slash => rise,
        _ => if fall < rise {
            fall
        } else {
            rise
        },
    }
}

/// The alpha of a pixel of a diagonal figure.
pub open spec fn diagonal_pixel(shape: Shape, w: int, h: int, x: int, y: int) -> u8 {
    let d = diagonal_distance(shape, x, y, w, h);
    line_level(d * d, w * w + h * h, light(h), 255) as u8
}

proof fn lemma_level_range(num: int, den: int, stroke: int, v: int)
    requires
        0 <= v <= 255,
    ensures
        0 <= line_level(num, den, stroke, v) <= v,
    decreases v,
{
    if v > 0 {
        lemma_level_range(num, den, stroke, v - 1);
    }
}

proof fn lemma_square(a: int, m: int)
    requires
        -m <= a <= m,
    ensures
        0 <= a * a <= m * m,
{
    assert(0 <= a * a <= m * m) by (nonlinear_arith)
        requires
            -m <= a <= m,
    ;
}

proof fn lemma_product(a: int, b: int, a_max: int, b_max: int)
    requires
        0 <= a <= a_max,
        0 <= b <= b_max,
    ensures
        0 <= a * b <= a_max * b_max,
{
    assert(0 <= a * b <= a_max * b_max) by (nonlinear_arith)
        requires
            0 <= a <= a_max,
            0 <= b <= b_max,
    ;
}

/// The alpha level for a squared double distance `num / den`.
fn level_of(num: u128, den: u128, stroke: i32) -> (v: u8)
    requires
        num <= 0x1_0000_0000_0000_0000_0000,
        den <= 0x4_0000_0000,
        1 <= stroke <= 4096,
    ensures
        v == line_level(num as int, den as int, stroke as int, 255),
{
    let mut v: i32 = 255;
    while v > 0
        invariant_except_break
            line_level(num as int, den as int, stroke as int, v as int) == line_level(
                num as int,
                den as int,
                stroke as int,
                255,
            ),
        invariant
            0 <= v <= 255,
            num <= 0x1_0000_0000_0000_0000_0000,
            den <= 0x4_0000_0000,
            1 <= stroke <= 4096,
        ensures
            v == line_level(num as int, den as int, stroke as int, 255),
        decreases v,
    {
        let p: i32 = 255 * (1 + stroke) - (2 * v - 1);
        proof {
            lemma_square(p as int, 0x10_0000);
            lemma_product(p * p, den as int, 0x100_0000_0000, 0x4_0000_0000);
        }
        if p >= 0 {
            let q: u128 = p as u128;
            if 65025 * num <= q * q * den {
                break;
            }
        }
        v -= 1;
    }
    v as u8
}

/// Draws one or both diagonals.
fn draw_diagonals(shape: Shape, width: u16, height: u16) -> (cov: Coverage)
    ensures
        cov.wf(),
        cov.width == width,
        cov.height == height,
        forall|x: int, y: int|
            0 <= x < width && 0 <= y < height ==> #[trigger] cov.pixel(x, y) == diagonal_pixel(
                shape,
                width as int,
                height as int,
                x,
                y,
            ),
{
    let mut cov = Coverage::new(width, height);
    let t: i32 = light_stroke(height);
    let w: i64 = width as i64;
    let h: i64 = height as i64;
    proof {
        lemma_product(w as int, w as int, 65535, 65535);
        lemma_product(h as int, h as int, 65535, 65535);
        lemma_product(w as int, h as int, 65535, 65535);
    }
    let den: u128 = (w * w + h * h) as u128;
    let mut y: u16 = 0;
    while y < height
        invariant
            y <= height,
            w == width,
            h == height,
            cov.wf(),
            cov.width == width,
            cov.height == height,
            den == w * w + h * h,
            den <= 0x4_0000_0000,
            0 <= w * h <= 0xFFFF_FFFF,
            t == light(height as int),
            1 <= t <= 4096,
            forall|i: int, j: int|
                0 <= i < width && 0 <= j < height ==> #[trigger] cov.pixel(i, j) == if j < y {
                    diagonal_pixel(shape, width as int, height as int, i, j)
                } else {
                    0
                },
        decreases height - y,
    {
        let mut x: u16 = 0;
        while x < width
            invariant
                x <= width,
                y < height,
                w == width,
                h == height,
                cov.wf(),
                cov.width == width,
                cov.height == height,
                den == w * w + h * h,
                den <= 0x4_0000_0000,
                0 <= w * h <= 0xFFFF_FFFF,
                t == light(height as int),
                1 <= t <= 4096,
                forall|i: int, j: int|
                    0 <= i < width && 0 <= j < height ==> #[trigger] cov.pixel(i, j) == if j < y || (
                    j == y && i < x) {
                        diagonal_pixel(shape, width as int, height as int, i, j)
                    } else {
                        0
                    },
            decreases width - x,
        {
            proof {
                lemma_product(2 * x + 1, h as int, 131071, 65535);
                lemma_product(2 * y + 1, w as int, 131071, 65535);
                assert(2 * w * h == 2 * (w * h)) by (nonlinear_arith);
            }
            let a: i64 = (2 * x as i64 + 1) * h;
            let b: i64 = (2 * y as i64 + 1) * w;
            let area: i64 = w * h;
            let fall: i64 = if a < b {
                b - a
            } else {
                a - b
            };
            let over: i64 = a + b - 2 * area;
            let rise: i64 = if over < 0 {
                -over
            } else {
                over
            };
            let d: i64 = match shape {
                Shape::Backslash => fall,
                Shape::Slash => rise,
                _ => if fall < rise {
                    fall
                } else {
                    rise
                },
            };
            proof {
                lemma_square(d as int, 0x100_0000_0000);
                let num = d * d;
                lemma_level_range(num, den as int, t as int, 255);
            }
            let q: u128 = d as u128;
            let level: u8 = level_of(q * q, den, t);
            cov.put(x, y, level);
            x += 1;
        }
        y += 1;
    }
    cov
}

/// The squared distance of a pixel's centre from an arc's centre, scaled so
/// that the arc itself lies at the square of the cell's area.
pub open spec fn arc_radius(b: BoxSpec, x: int, y: int, w: int, h: int) -> int {
    let dx = (2 * x + 1 - if b.right > 0 {
        2 * w
    } else {
        0
    }) * h;
    let dy = (2 * y + 1 - if b.down > 0 {
        2 * h
    } else {
        0
    }) * w;
    dx * dx + dy * dy
}

/// The smaller side of the cell, but at least two.
pub open spec fn arc_scale(w: int, h: int) -> int {
    let m = if w < h {
        w
    } else {
        h
    };
    if m < 2 {
        2
    } else {
        m
    }
}

/// Whether a pixel at that scaled squared radius rounds to alpha `v` or more.
pub open spec fn arc_reaches(
    radius: int,
    area: int,
    scale: int,
    stroke: int,
    v: int,
) -> bool {
    let p = slack(stroke, v);
    let k = 255 * scale;
    let outer = (k + p) * area;
    let inner = (k - p) * area;
    p >= 0 && k * k * radius <= outer * outer && (inner <= 0 || inner * inner <= k * k * radius)
}

/// The largest alpha up to `v` that such a pixel reaches.
pub open spec fn arc_level(radius: int, area: int, scale: int, stroke: int, v: int) -> int
    decreases v,
{
    if v <= 0 {
        0
    } else if arc_reaches(radius, area, scale, stroke, v) {
        v
    } else {
        arc_level(radius, area, scale, stroke, v - 1)
    }
}

/// The alpha of a pixel of a rounded corner.
pub open spec fn arc_pixel(b: BoxSpec, w: int, h: int, x: int, y: int) -> u8 {
    arc_level(arc_radius(b, x, y, w, h), w * h, arc_scale(w, h), light(h), 255) as u8
}

/// The alpha level for a scaled squared radius.
fn arc_level_of(radius: u128, area: i64, scale: i64, stroke: i32) -> (v: u8)
    requires
        radius <= 0x10_0000_0000_0000_0000,
        0 <= area <= 0xFFFF_FFFF,
        1 <= scale <= 65535,
        1 <= stroke <= 4096,
    ensures
        v == arc_level(radius as int, area as int, scale as int, stroke as int, 255),
{
    let k: i64 = 255 * scale;
    let kk: u128 = k as u128;
    proof {
        lemma_square(k as int, 0x100_0000);
        lemma_product(k * k, radius as int, 0x1_0000_0000_0000, 0x10_0000_0000_0000_0000);
    }
    let reached: u128 = kk * kk * radius;
    let mut v: i32 = 255;
    while v > 0
        invariant_except_break
            arc_level(radius as int, area as int, scale as int, stroke as int, v as int)
                == arc_level(radius as int, area as int, scale as int, stroke as int, 255),
        invariant
            0 <= v <= 255,
            k == 255 * scale,
            1 <= scale <= 65535,
            reached == k * k * radius,
            0 <= area <= 0xFFFF_FFFF,
            1 <= stroke <= 4096,
        ensures
            v == arc_level(radius as int, area as int, scale as int, stroke as int, 255),
        decreases v,
    {
        let p: i64 = 255 * (1 + stroke as i64) - (2 * v as i64 - 1);
        if p >= 0 {
            proof {
                lemma_product(k + p, area as int, 0x200_0000, 0xFFFF_FFFF);
                lemma_square((k + p) * area, 0x200_0000int * 0xFFFF_FFFFint);
                if k >= p {
                    lemma_product(k - p, area as int, 0x200_0000, 0xFFFF_FFFF);
                } else {
                    assert((k - p) * area <= 0) by (nonlinear_arith)
                        requires
                            k < p,
                            area >= 0,
                    ;
                    lemma_product(p - k, area as int, 0x200_0000, 0xFFFF_FFFF);
                    assert((k - p) * area == -((p - k) * area)) by (nonlinear_arith);
                }
            }
            let outer: u128 = ((k + p) * area) as u128;
            let inner: i64 = (k - p) * area;
            let inside: bool = if inner <= 0 {
                true
            } else {
                proof {
                    lemma_square(inner as int, 0x200_0000int * 0xFFFF_FFFFint);
                }
                let i: u128 = inner as u128;
                i * i <= reached
            };
            if inside && reached <= outer * outer {
                break;
            }
        }
        v -= 1;
    }
    v as u8
}

proof fn lemma_arc_level_range(radius: int, area: int, scale: int, stroke: int, v: int)
    requires
        0 <= v <= 255,
    ensures
        0 <= arc_level(radius, area, scale, stroke, v) <= v,
    decreases v,
{
    if v > 0 {
        lemma_arc_level_range(radius, area, scale, stroke, v - 1);
    }
}

/// Draws a rounded corner.
fn draw_arc(b: BoxSpec, width: u16, height: u16) -> (cov: Coverage)
    requires
        width >= 1,
        height >= 1,
    ensures
        cov.wf(),
        cov.width == width,
        cov.height == height,
        forall|x: int, y: int|
            0 <= x < width && 0 <= y < height ==> #[trigger] cov.pixel(x, y) == arc_pixel(
                b,
                width as int,
                height as int,
                x,
                y,
            ),
{
    let mut cov = Coverage::new(width, height);
    let t: i32 = light_stroke(height);
    let w: i64 = width as i64;
    let h: i64 = height as i64;
    proof {
        lemma_product(w as int, h as int, 65535, 65535);
    }
    let area: i64 = w * h;
    let small: i64 = if w < h {
        w
    } else {
        h
    };
    let scale: i64 = if small < 2 {
        2
    } else {
        small
    };
    let ox: i64 = if b.right > 0 {
        2 * w
    } else {
        0
    };
    let oy: i64 = if b.down > 0 {
        2 * h
    } else {
        0
    };
    let mut y: u16 = 0;
    while y < height
        invariant
            y <= height,
            w == width,
            h == height,
            cov.wf(),
            cov.width == width,
            cov.height == height,
            area == w * h,
            0 <= area <= 0xFFFF_FFFF,
            scale == arc_scale(w as int, h as int),
            1 <= scale <= 65535,
            ox == if b.right > 0 {
                2 * w
            } else {
                0
            },
            oy == if b.down > 0 {
                2 * h
            } else {
                0
            },
            t == light(height as int),
            1 <= t <= 4096,
            forall|i: int, j: int|
                0 <= i < width && 0 <= j < height ==> #[trigger] cov.pixel(i, j) == if j < y {
                    arc_pixel(b, width as int, height as int, i, j)
                } else {
                    0
                },
        decreases height - y,
    {
        let mut x: u16 = 0;
        while x < width
            invariant
                x <= width,
                y < height,
                w == width,
                h == height,
                cov.wf(),
                cov.width == width,
                cov.height == height,
                area == w * h,
                0 <= area <= 0xFFFF_FFFF,
                scale == arc_scale(w as int, h as int),
                1 <= scale <= 65535,
                ox == if b.right > 0 {
                    2 * w
                } else {
                    0
                },
                oy == if b.down > 0 {
                    2 * h
                } else {
                    0
                },
                t == light(height as int),
                1 <= t <= 4096,
                forall|i: int, j: int|
                    0 <= i < width && 0 <= j < height ==> #[trigger] cov.pixel(i, j) == if j < y || (
                    j == y && i < x) {
                        arc_pixel(b, width as int, height as int, i, j)
                    } else {
                        0
                    },
            decreases width - x,
        {
            let fx: i64 = 2 * x as i64 + 1 - ox;
            let fy: i64 = 2 * y as i64 + 1 - oy;
            proof {
                assert(-0x2_0000 * 65535 <= fx * h <= 0x2_0000 * 65535) by (nonlinear_arith)
                    requires
                        -0x2_0000 <= fx <= 0x2_0000,
                        0 <= h <= 65535,
                ;
                assert(-0x2_0000 * 65535 <= fy * w <= 0x2_0000 * 65535) by (nonlinear_arith)
                    requires
                        -0x2_0000 <= fy <= 0x2_0000,
                        0 <= w <= 65535,
                ;
            }
            let dx: i64 = fx * h;
            let dy: i64 = fy * w;
            let ax: u128 = if dx < 0 {
                (-dx) as u128
            } else {
                dx as u128
            };
            let ay: u128 = if dy < 0 {
                (-dy) as u128
            } else {
                dy as u128
            };
            proof {
                lemma_square(dx as int, 0x2_0000_0000);
                lemma_square(dy as int, 0x2_0000_0000);
                assert(ax * ax == dx * dx) by (nonlinear_arith)
                    requires
                        ax == dx || ax == -dx,
                ;
                assert(ay * ay == dy * dy) by (nonlinear_arith)
                    requires
                        ay == dy || ay == -dy,
                ;
                lemma_arc_level_range(
                    dx * dx + dy * dy,
                    area as int,
                    scale as int,
                    t as int,
                    255,
                );
            }
            let radius: u128 = ax * ax + ay * ay;
            let level: u8 = arc_level_of(radius, area, scale, t);
            cov.put(x, y, level);
            x += 1;
        }
        y += 1;
    }
    cov
}

/// The alpha of a pixel of a box-drawing character.
pub open spec fn box_pixel(b: BoxSpec, w: int, h: int, x: int, y: int) -> u8 {
    match b.shape {
        Shape::Line => if runs_ink(line_runs(b, w, h), b.dashes, w, h, x, y) {
            255
        } else {
            0
        },
        Shape::Arc => arc_pixel(b, w, h, x, y),
        _ => diagonal_pixel(b.shape, w, h, x, y),
    }
}

fn render_box(b: BoxSpec, width: u16, height: u16) -> (cov: Coverage)
    requires
        width >= 1,
        height >= 1,
    ensures
        cov.wf(),
        cov.width == width,
        cov.height == height,
        forall|x: int, y: int|
            0 <= x < width && 0 <= y < height ==> #[trigger] cov.pixel(x, y) == box_pixel(
                b,
                width as int,
                height as int,
                x,
                y,
            ),
{
    match b.shape {
        Shape::Line => draw_lines(b, width, height),
        Shape::Arc => draw_arc(b, width, height),
        _ => draw_diagonals(b.shape, width, height),
    }
}

/// `n` eighths of a length, to the nearest pixel.
pub open spec fn eighths(len: int, n: int) -> int {
    (len * n + 4) / 8
}

/// Whether a block element (U+2580 to U+259F, the shades aside) covers a pixel.
/// The right half, the upper eighth and the right eighth are what their
/// counterparts leave.
pub open spec fn block_covers(cp: int, w: int, h: int, x: int, y: int) -> bool {
    let top = y < h / 2;
    let left = x < w / 2;
    if cp == 0x2580 {
        top
    } else if 0x2581 <= cp <= 0x2587 {
        y >= h - eighths(h, cp - 0x2580)
    } else if cp == 0x2588 {
        true
    } else if 0x2589 <= cp <= 0x258F {
        x < eighths(w, 8 - (cp - 0x2588))
    } else if cp == 0x2590 {
        x >= eighths(w, 4)
    } else if cp == 0x2594 {
        y < h - eighths(h, 7)
    } else if cp == 0x2595 {
        x >= eighths(w, 7)
    } else if cp == 0x2596 {
        !top && left
    } else if cp == 0x2597 {
        !top && !left
    } else if cp == 0x2598 {
        top && left
    } else if cp == 0x2599 {
        left || !top
    } else if cp == 0x259A {
        (top && left) || (!top && !left)
    } else if cp == 0x259B {
        top || left
    } else if cp == 0x259C {
        top || !left
    } else if cp == 0x259D {
        top && !left
    } else if cp == 0x259E {
        (top && !left) || (!top && left)
    } else if cp == 0x259F {
        !left || !top
    } else {
        false
    }
}

/// The alpha of a pixel of a block element. A shade is one flat alpha.
pub open spec fn block_pixel(cp: int, w: int, h: int, x: int, y: int) -> u8 {
    if cp == 0x2591 {
        64
    } else if cp == 0x2592 {
        128
    } else if cp == 0x2593 {
        192
    } else if block_covers(cp, w, h, x, y) {
        255
    } else {
        0
    }
}

fn eighth(len: i32, n: i32) -> (at: i32)
    requires
        0 <= len <= 65535,
        0 <= n <= 8,
    ensures
        at == eighths(len as int, n as int),
        0 <= at <= len,
{
    proof {
        assert(0 <= len * n <= 65535 * 8 && len * n <= len * 8) by (nonlinear_arith)
            requires
                0 <= len <= 65535,
                0 <= n <= 8,
        ;
    }
    (len * n + 4) / 8
}

/// Sets every pixel to one alpha.
fn shade(cov: &mut Coverage, alpha: u8)
    requires
        old(cov).wf(),
    ensures
        final(cov).wf(),
        final(cov).width == old(cov).width,
        final(cov).height == old(cov).height,
        forall|x: int, y: int|
            0 <= x < old(cov).width && 0 <= y < old(cov).height ==> #[trigger] final(cov).pixel(x, y)
                == alpha,
{
    let n: usize = cov.data.len();
    let mut i: usize = 0;
    while i < n
        invariant
            i <= n == cov.data@.len(),
            n == cov.width * cov.height,
            cov.width == old(cov).width,
            cov.height == old(cov).height,
            forall|j: int| 0 <= j < i ==> cov.data@[j] == alpha,
        decreases n - i,
    {
        cov.data.set(i, alpha);
        i += 1;
    }
    assert forall|x: int, y: int| 0 <= x < cov.width && 0 <= y < cov.height implies #[trigger] cov.pixel(
        x,
        y,
    ) == alpha by {
        lemma_pixel_index(x, y, cov.width as int, cov.height as int);
    }
}

/// Draws a block element. Any other character is blank here.
pub fn render_block(ch: char, width: u16, height: u16) -> (cov: Coverage)
    ensures
        cov.wf(),
        cov.width == width,
        cov.height == height,
        forall|x: int, y: int|
            0 <= x < width && 0 <= y < height ==> #[trigger] cov.pixel(x, y) == block_pixel(
                ch as int,
                width as int,
                height as int,
                x,
                y,
            ),
{
    let mut cov = Coverage::new(width, height);
    let (w, h): (i32, i32) = (width as i32, height as i32);
    let cp: u32 = ch as u32;
    if cp == 0x2580 {
        cov.fill_rect(0, 0, w, h / 2);
    } else if 0x2581 <= cp && cp <= 0x2587 {
        let n: i32 = (cp - 0x2580) as i32;
        cov.fill_rect(0, h - eighth(h, n), w, h);
    } else if cp == 0x2588 {
        cov.fill_rect(0, 0, w, h);
    } else if 0x2589 <= cp && cp <= 0x258F {
        let n: i32 = 8 - (cp - 0x2588) as i32;
        cov.fill_rect(0, 0, eighth(w, n), h);
    } else if cp == 0x2590 {
        cov.fill_rect(eighth(w, 4), 0, w, h);
    } else if cp == 0x2591 {
        shade(&mut cov, 64);
    } else if cp == 0x2592 {
        shade(&mut cov, 128);
    } else if cp == 0x2593 {
        shade(&mut cov, 192);
    } else if cp == 0x2594 {
        cov.fill_rect(0, 0, w, h - eighth(h, 7));
    } else if cp == 0x2595 {
        cov.fill_rect(eighth(w, 7), 0, w, h);
    } else if cp == 0x2596 {
        cov.fill_rect(0, h / 2, w / 2, h);
    } else if cp == 0x2597 {
        cov.fill_rect(w / 2, h / 2, w, h);
    } else if cp == 0x2598 {
        cov.fill_rect(0, 0, w / 2, h / 2);
    } else if cp == 0x2599 {
        cov.fill_rect(0, 0, w / 2, h);
        cov.fill_rect(0, h / 2, w, h);
    } else if cp == 0x259A {
        cov.fill_rect(0, 0, w / 2, h / 2);
        cov.fill_rect(w / 2, h / 2, w, h);
    } else if cp == 0x259B {
        cov.fill_rect(0, 0, w, h / 2);
        cov.fill_rect(0, 0, w / 2, h);
    } else if cp == 0x259C {
        cov.fill_rect(0, 0, w, h / 2);
        cov.fill_rect(w / 2, 0, w, h);
    } else if cp == 0x259D {
        cov.fill_rect(w / 2, 0, w, h / 2);
    } else if cp == 0x259E {
        cov.fill_rect(w / 2, 0, w, h / 2);
        cov.fill_rect(0, h / 2, w / 2, h);
    } else if cp == 0x259F {
        cov.fill_rect(w / 2, 0, w, h);
        cov.fill_rect(0, h / 2, w, h);
    }
    cov
}

/// The alpha of a pixel of a synthesised character.
pub open spec fn glyph_pixel(ch: char, w: int, h: int, x: int, y: int) -> u8 {
    if ch <= '\u{257F}' {
        box_pixel(decoded(BOX_TABLE[ch as int - 0x2500]), w, h, x, y)
    } else {
        block_pixel(ch as int, w, h, x, y)
    }
}

/// Draws a synthesised character, or gives `None` where it is not one or the
/// cell is empty.
pub fn render(ch: char, width: u16, height: u16) -> (c: Option<Coverage>)
    ensures
        c is Some <==> width > 0 && height > 0 && synthesised(ch),
        c matches Some(cov) ==> {
            &&& cov.wf()
            &&& cov.width == width
            &&& cov.height == height
            &&& forall|x: int, y: int|
                0 <= x < width && 0 <= y < height ==> #[trigger] cov.pixel(x, y) == glyph_pixel(
                    ch,
                    width as int,
                    height as int,
                    x,
                    y,
                )
        },
{
    if width == 0 || height == 0 {
        return None;
    }
    if !is_synthesised(ch) {
        return None;
    }
    if ch <= '\u{257F}' {
        let at: usize = (ch as u32 - 0x2500) as usize;
        Some(render_box(decode(BOX_TABLE[at]), width, height))
    } else {
        Some(render_block(ch, width, height))
    }
}

/// Whether of two block elements one inks a pixel in full and the other not at
/// all.
pub open spec fn complement(a: int, b: int, w: int, h: int, x: int, y: int) -> bool {
    ||| block_pixel(a, w, h, x, y) == 255 && block_pixel(b, w, h, x, y) == 0
    ||| block_pixel(a, w, h, x, y) == 0 && block_pixel(b, w, h, x, y) == 255
}

/// The upper and the lower half block cover the cell with no gap and no
/// overlap, whatever its height.
pub proof fn law_half_blocks_tile(w: int, h: int, x: int, y: int)
    requires
        0 <= x < w,
        0 <= y < h,
    ensures
        complement(0x2580, 0x2584, w, h, x, y),
{
}

/// The left and the right half block cover the cell with no gap and no overlap,
/// whatever its width.
pub proof fn law_side_blocks_tile(w: int, h: int, x: int, y: int)
    requires
        0 <= x < w,
        0 <= y < h,
    ensures
        complement(0x258C, 0x2590, w, h, x, y),
{
}

/// The upper eighth and the lower seven eighths cover the cell with no gap and no
/// overlap, and so do the right eighth and the left seven eighths.
pub proof fn law_eighth_blocks_tile(w: int, h: int, x: int, y: int)
    requires
        0 <= x < w,
        0 <= y < h,
    ensures
        complement(0x2594, 0x2587, w, h, x, y),
        complement(0x2595, 0x2589, w, h, x, y),
{
}

/// Each lower block covers all that the next smaller one does, up to the full
/// block, and each left block all that the next narrower one does.
pub proof fn law_eighth_blocks_grow(cp: int, w: int, h: int, x: int, y: int)
    requires
        0 <= x < w,
        0 <= y < h,
    ensures
        0x2581 <= cp < 0x2588 && block_covers(cp, w, h, x, y) ==> block_covers(cp + 1, w, h, x, y),
        0x2588 <= cp < 0x258F && block_covers(cp + 1, w, h, x, y) ==> block_covers(cp, w, h, x, y),
{
    let n = cp - 0x2580;
    let m = 8 - (cp - 0x2588);
    assert(h * (n + 1) == h * n + h) by (nonlinear_arith);
    assert(w * m == w * (m - 1) + w) by (nonlinear_arith);
}

/// Every pixel lies in exactly one quadrant.
pub proof fn law_quadrants_partition(w: int, h: int, x: int, y: int)
    ensures
        ({
            let lower_left = block_pixel(0x2596, w, h, x, y) == 255;
            let lower_right = block_pixel(0x2597, w, h, x, y) == 255;
            let upper_left = block_pixel(0x2598, w, h, x, y) == 255;
            let upper_right = block_pixel(0x259D, w, h, x, y) == 255;
            ||| lower_left && !lower_right && !upper_left && !upper_right
            ||| !lower_left && lower_right && !upper_left && !upper_right
            ||| !lower_left && !lower_right && upper_left && !upper_right
            ||| !lower_left && !lower_right && !upper_left && upper_right
        }),
{
}

/// The figures of more than one quadrant are unions of the four.
pub proof fn law_quadrant_figures_are_unions(w: int, h: int, x: int, y: int)
    ensures
        ({
            let lower_left = block_pixel(0x2596, w, h, x, y) == 255;
            let lower_right = block_pixel(0x2597, w, h, x, y) == 255;
            let upper_left = block_pixel(0x2598, w, h, x, y) == 255;
            let upper_right = block_pixel(0x259D, w, h, x, y) == 255;
            &&& block_pixel(0x2599, w, h, x, y) == inked(upper_left || lower_left || lower_right)
            &&& block_pixel(0x259A, w, h, x, y) == inked(upper_left || lower_right)
            &&& block_pixel(0x259B, w, h, x, y) == inked(upper_left || upper_right || lower_left)
            &&& block_pixel(0x259C, w, h, x, y) == inked(upper_left || upper_right || lower_right)
            &&& block_pixel(0x259E, w, h, x, y) == inked(upper_right || lower_left)
            &&& block_pixel(0x259F, w, h, x, y) == inked(upper_right || lower_left || lower_right)
        }),
{
}

/// The alpha of a pixel that is inked in full or not at all.
pub open spec fn inked(yes: bool) -> u8 {
    if yes {
        255
    } else {
        0
    }
}

/// The hub spans the cell's centre.
proof fn lemma_hub(centre: int, rails: Seq<Rail>)
    ensures
        lowest(centre, rails) <= centre <= highest(centre, rails),
    decreases rails.len(),
{
    if rails.len() > 0 {
        lemma_hub(centre, rails.drop_last());
    }
}

/// The far runs of a single rail.
proof fn lemma_single_far(
    horizontal: bool,
    r: Rail,
    opposite: Seq<Rail>,
    centre: int,
    hub: (int, int),
    extent: int,
)
    ensures
        far_runs(horizontal, seq![r], opposite, centre, hub, extent) == if opposite.contains(
            r,
        ) {
            Seq::<Run>::empty()
        } else {
            seq![far_run(horizontal, r, centre, hub, extent)]
        },
{
    assert(seq![r].drop_last() =~= Seq::empty());
    assert(far_runs(horizontal, seq![r].drop_last(), opposite, centre, hub, extent) =~= Seq::empty());
    assert(far_runs(horizontal, seq![r], opposite, centre, hub, extent) =~= if opposite.contains(
        r,
    ) {
        Seq::<Run>::empty()
    } else {
        seq![far_run(horizontal, r, centre, hub, extent)]
    });
}

/// A solid line whose two ends have the same weight inks every column of its
/// rails, and an upright one every row: beside or below its like it shows no
/// seam.
pub proof fn law_straight_lines_tile(b: BoxSpec, w: u16, h: u16, x: int, y: int, i: int)
    requires
        b.shape is Line,
        b.dashes == 0,
        0 <= x < w,
        0 <= y < h,
    ensures
        ({
            let across = rails_of(b.left, light(h as int));
            b.left == b.right && 0 <= i < across.len() && rail_start(h as int / 2, across[i]) <= y
                < rail_start(h as int / 2, across[i]) + across[i].thickness ==> box_pixel(
                b,
                w as int,
                h as int,
                x,
                y,
            ) == 255
        }),
        ({
            let along = rails_of(b.up, light(h as int));
            b.up == b.down && 0 <= i < along.len() && rail_start(w as int / 2, along[i]) <= x
                < rail_start(w as int / 2, along[i]) + along[i].thickness ==> box_pixel(
                b,
                w as int,
                h as int,
                x,
                y,
            ) == 255
        }),
{
    let (wi, hi) = (w as int, h as int);
    let t = light(hi);
    let up = rails_of(b.up, t);
    let down = rails_of(b.down, t);
    let left = rails_of(b.left, t);
    let right = rails_of(b.right, t);
    let hub_x = (lowest(wi / 2, up + down), highest(wi / 2, up + down));
    let hub_y = (lowest(hi / 2, left + right), highest(hi / 2, left + right));
    let a = near_runs(true, left, right, hi / 2, hub_x, wi);
    let c = far_runs(true, right, left, hi / 2, hub_x, wi);
    let d = near_runs(false, up, down, wi / 2, hub_y, hi);
    let runs = line_runs(b, wi, hi);
    if b.left == b.right && 0 <= i < left.len() && rail_start(hi / 2, left[i]) <= y < rail_start(
        hi / 2,
        left[i],
    ) + left[i].thickness {
        assert(right.contains(left[i]));
        assert(runs[i] == a[i]);
        assert(run_inks(runs[i], 0, wi, hi, x, y));
    }
    if b.up == b.down && 0 <= i < up.len() && rail_start(wi / 2, up[i]) <= x < rail_start(
        wi / 2,
        up[i],
    ) + up[i].thickness {
        let k = a.len() + c.len() + i;
        assert(down.contains(up[i]));
        assert(runs[k] == d[i]);
        assert(run_inks(runs[k], 0, wi, hi, x, y));
    }
}

/// A run that crosses a pixel shows there, wherever it stands in the list.
proof fn lemma_run_shows(parts: (Seq<Run>, Seq<Run>, Seq<Run>, Seq<Run>), run: Run, w: int, h: int, x: int, y: int)
    requires
        run_inks(run, 0, w, h, x, y),
        parts.0.contains(run) || parts.1.contains(run) || parts.2.contains(run) || parts.3.contains(
            run,
        ),
    ensures
        runs_ink(parts.0 + parts.1 + parts.2 + parts.3, 0, w, h, x, y),
{
    let (a, c, d, e) = parts;
    let all = a + c + d + e;
    if a.contains(run) {
        let k = choose|k: int| 0 <= k < a.len() && a[k] == run;
        assert(all[k] == run);
    } else if c.contains(run) {
        let k = choose|k: int| 0 <= k < c.len() && c[k] == run;
        assert(all[a.len() + k] == run);
    } else if d.contains(run) {
        let k = choose|k: int| 0 <= k < d.len() && d[k] == run;
        assert(all[a.len() + c.len() + k] == run);
    } else {
        let k = choose|k: int| 0 <= k < e.len() && e[k] == run;
        assert(all[a.len() + c.len() + d.len() + k] == run);
    }
}

/// The two runs that one pair of opposite sides makes, as far as they reach the
/// middle of the cell's edges.
proof fn lemma_pair_reaches(
    horizontal: bool,
    near_weight: u8,
    far_weight: u8,
    t: int,
    centre: int,
    hub: (int, int),
    extent: int,
)
    requires
        1 <= t <= 4096,
        0 <= centre <= 65535,
        -20000 <= hub.0 < extent,
        0 < hub.1 <= 90000,
        2 <= extent <= 65535,
    ensures
        ({
            let (a, c) = pair_runs(horizontal, near_weight, far_weight, t, centre, hub, extent);
            &&& near_weight == 1 || near_weight == 2 ==> exists|r: Run|
                (a.contains(r) || c.contains(r)) && #[trigger] run_at(r, horizontal, 0, centre)
            &&& far_weight == 1 || far_weight == 2 ==> exists|r: Run|
                (a.contains(r) || c.contains(r)) && #[trigger] run_at(
                    r,
                    horizontal,
                    extent - 1,
                    centre,
                )
        }),
{
    reveal(pair_runs);
    let near = rails_of(near_weight, t);
    let far = rails_of(far_weight, t);
    let a = near_runs(horizontal, near, far, centre, hub, extent);
    let c = far_runs(horizontal, far, near, centre, hub, extent);
    if near_weight == 1 || near_weight == 2 {
        assert(a[0] == near_run(horizontal, near[0], far, centre, hub, extent));
        assert(a.contains(a[0]));
        assert(run_at(a[0], horizontal, 0, centre));
    }
    if far_weight == 1 || far_weight == 2 {
        assert(far =~= seq![far[0]]);
        lemma_single_far(horizontal, far[0], near, centre, hub, extent);
        if near.contains(far[0]) {
            assert(near[0] == far[0]);
            assert(far.contains(near[0]));
            assert(a[0] == near_run(horizontal, near[0], far, centre, hub, extent));
            assert(a.contains(a[0]));
            assert(run_at(a[0], horizontal, extent - 1, centre));
        } else {
            assert(c[0] == far_run(horizontal, far[0], centre, hub, extent));
            assert(c.contains(c[0]));
            assert(run_at(c[0], horizontal, extent - 1, centre));
        }
    }
}

/// Whether a run in this direction covers a place along and across it.
spec fn run_at(r: Run, horizontal: bool, along: int, across: int) -> bool {
    r.horizontal == horizontal && r.from <= along < r.to && r.lo <= across < r.hi
}

/// A solid light or heavy stroke reaches the middle of the edge it points at,
/// so neighbouring cells join.
pub proof fn law_strokes_reach_their_edges(b: BoxSpec, w: u16, h: u16)
    requires
        b.shape is Line,
        b.dashes == 0,
        w >= 2,
        h >= 2,
    ensures
        b.left == 1 || b.left == 2 ==> box_pixel(b, w as int, h as int, 0, h as int / 2) == 255,
        b.right == 1 || b.right == 2 ==> box_pixel(
            b,
            w as int,
            h as int,
            w - 1,
            h as int / 2,
        ) == 255,
        b.up == 1 || b.up == 2 ==> box_pixel(b, w as int, h as int, w as int / 2, 0) == 255,
        b.down == 1 || b.down == 2 ==> box_pixel(
            b,
            w as int,
            h as int,
            w as int / 2,
            h - 1,
        ) == 255,
{
    let (wi, hi) = (w as int, h as int);
    let t = light(hi);
    let hub_x = hub_of(b.up, b.down, t, wi / 2);
    let hub_y = hub_of(b.left, b.right, t, hi / 2);
    lemma_hub_of(b.up, b.down, t, wi / 2);
    lemma_hub_of(b.left, b.right, t, hi / 2);
    let parts = pair_runs(true, b.left, b.right, t, hi / 2, hub_x, wi);
    let others = pair_runs(false, b.up, b.down, t, wi / 2, hub_y, hi);
    lemma_line_runs_split(b, wi, hi);
    lemma_pair_reaches(true, b.left, b.right, t, hi / 2, hub_x, wi);
    lemma_pair_reaches(false, b.up, b.down, t, wi / 2, hub_y, hi);
    let all = (parts.0, parts.1, others.0, others.1);
    if b.left == 1 || b.left == 2 {
        lemma_horizontal_shows(all, wi, hi, 0, hi / 2);
    }
    if b.right == 1 || b.right == 2 {
        lemma_horizontal_shows(all, wi, hi, wi - 1, hi / 2);
    }
    if b.up == 1 || b.up == 2 {
        lemma_vertical_shows(all, wi, hi, wi / 2, 0);
    }
    if b.down == 1 || b.down == 2 {
        lemma_vertical_shows(all, wi, hi, wi / 2, hi - 1);
    }
}

/// The hub that two opposite weights make for the strokes across them.
#[verifier::opaque]
spec fn hub_of(near_weight: u8, far_weight: u8, t: int, centre: int) -> (int, int) {
    let both = rails_of(near_weight, t) + rails_of(far_weight, t);
    (lowest(centre, both), highest(centre, both))
}

proof fn lemma_hub_of(near_weight: u8, far_weight: u8, t: int, centre: int)
    requires
        1 <= t <= 4096,
        0 <= centre <= 65535,
    ensures
        ({
            let hub = hub_of(near_weight, far_weight, t, centre);
            -20000 <= hub.0 <= centre <= hub.1 <= 90000
        }),
{
    reveal(hub_of);
    let a = rails_of(near_weight, t);
    let c = rails_of(far_weight, t);
    assert(modest(a) && modest(c));
    assert(modest(a + c)) by {
        assert forall|i: int| 0 <= i < (a + c).len() implies -4096 <= (#[trigger] (a + c)[i]).offset
            <= 4096 && 1 <= (a + c)[i].thickness <= 8192 by {
            if i < a.len() {
                assert((a + c)[i] == a[i]);
            } else {
                assert((a + c)[i] == c[i - a.len()]);
            }
        }
    }
    lemma_hub(centre, a + c);
    lemma_hub_small(centre, a + c);
}

/// The runs that one pair of opposite sides makes.
#[verifier::opaque]
spec fn pair_runs(
    horizontal: bool,
    near_weight: u8,
    far_weight: u8,
    t: int,
    centre: int,
    hub: (int, int),
    extent: int,
) -> (Seq<Run>, Seq<Run>) {
    let near = rails_of(near_weight, t);
    let far = rails_of(far_weight, t);
    (
        near_runs(horizontal, near, far, centre, hub, extent),
        far_runs(horizontal, far, near, centre, hub, extent),
    )
}

proof fn lemma_line_runs_split(b: BoxSpec, w: int, h: int)
    ensures
        ({
            let t = light(h);
            let across = pair_runs(
                true,
                b.left,
                b.right,
                t,
                h / 2,
                hub_of(b.up, b.down, t, w / 2),
                w,
            );
            let upright = pair_runs(
                false,
                b.up,
                b.down,
                t,
                w / 2,
                hub_of(b.left, b.right, t, h / 2),
                h,
            );
            line_runs(b, w, h) == across.0 + across.1 + upright.0 + upright.1
        }),
{
    reveal(hub_of);
    reveal(pair_runs);
}

proof fn lemma_horizontal_shows(
    parts: (Seq<Run>, Seq<Run>, Seq<Run>, Seq<Run>),
    w: int,
    h: int,
    x: int,
    y: int,
)
    requires
        exists|r: Run|
            (parts.0.contains(r) || parts.1.contains(r)) && #[trigger] run_at(r, true, x, y),
    ensures
        runs_ink(parts.0 + parts.1 + parts.2 + parts.3, 0, w, h, x, y),
{
    let r = choose|r: Run|
        (parts.0.contains(r) || parts.1.contains(r)) && #[trigger] run_at(r, true, x, y);
    lemma_run_shows(parts, r, w, h, x, y);
}

proof fn lemma_vertical_shows(
    parts: (Seq<Run>, Seq<Run>, Seq<Run>, Seq<Run>),
    w: int,
    h: int,
    x: int,
    y: int,
)
    requires
        exists|r: Run|
            (parts.2.contains(r) || parts.3.contains(r)) && #[trigger] run_at(r, false, y, x),
    ensures
        runs_ink(parts.0 + parts.1 + parts.2 + parts.3, 0, w, h, x, y),
{
    let r = choose|r: Run|
        (parts.2.contains(r) || parts.3.contains(r)) && #[trigger] run_at(r, false, y, x);
    lemma_run_shows(parts, r, w, h, x, y);
}

/// Whether one of the rails covers a place across its direction.
pub open spec fn rails_cover(rails: Seq<Rail>, centre: int, at: int) -> bool {
    exists|i: int|
        0 <= i < rails.len() && rail_start(centre, #[trigger] rails[i]) <= at < rail_start(
            centre,
            rails[i],
        ) + rails[i].thickness
}

/// Every rail lies inside the hub that it is part of.
proof fn lemma_inside_hub(centre: int, rails: Seq<Rail>, i: int)
    requires
        0 <= i < rails.len(),
    ensures
        lowest(centre, rails) <= rail_start(centre, rails[i]),
        rail_start(centre, rails[i]) + rails[i].thickness <= highest(centre, rails),
    decreases rails.len(),
{
    if i < rails.len() - 1 {
        lemma_inside_hub(centre, rails.drop_last(), i);
        assert(rails.drop_last()[i] == rails[i]);
    }
}

/// The far runs are those of the rails that do not stand on the other side too.
proof fn lemma_far_runs(
    horizontal: bool,
    rails: Seq<Rail>,
    opposite: Seq<Rail>,
    centre: int,
    hub: (int, int),
    extent: int,
)
    ensures
        ({
            let runs = far_runs(horizontal, rails, opposite, centre, hub, extent);
            &&& forall|i: int|
                0 <= i < rails.len() && !opposite.contains(rails[i]) ==> runs.contains(
                    far_run(horizontal, #[trigger] rails[i], centre, hub, extent),
                )
            &&& forall|r: Run| #[trigger]
                runs.contains(r) ==> exists|i: int|
                    0 <= i < rails.len() && !opposite.contains(rails[i]) && r == far_run(
                        horizontal,
                        #[trigger] rails[i],
                        centre,
                        hub,
                        extent,
                    )
        }),
    decreases rails.len(),
{
    let runs = far_runs(horizontal, rails, opposite, centre, hub, extent);
    if rails.len() > 0 {
        let rest = rails.drop_last();
        let before = far_runs(horizontal, rest, opposite, centre, hub, extent);
        lemma_far_runs(horizontal, rest, opposite, centre, hub, extent);
        let last = rails.len() - 1;
        let new = far_run(horizontal, rails[last], centre, hub, extent);
        assert forall|i: int| 0 <= i < rails.len() && !opposite.contains(rails[i]) implies runs.contains(
            far_run(horizontal, #[trigger] rails[i], centre, hub, extent),
        ) by {
            if i < last {
                let r = far_run(horizontal, rest[i], centre, hub, extent);
                assert(before.contains(r));
                let k = choose|k: int| 0 <= k < before.len() && before[k] == r;
                assert(runs[k] == r);
            } else {
                assert(runs.last() == new);
            }
        }
        assert forall|r: Run| #[trigger] runs.contains(r) implies exists|i: int|
            0 <= i < rails.len() && !opposite.contains(rails[i]) && r == far_run(
                horizontal,
                #[trigger] rails[i],
                centre,
                hub,
                extent,
            ) by {
            let k = choose|k: int| 0 <= k < runs.len() && runs[k] == r;
            if k < before.len() {
                assert(before[k] == r);
                assert(before.contains(r));
                let i = choose|i: int|
                    0 <= i < rest.len() && !opposite.contains(rest[i]) && r == far_run(
                        horizontal,
                        #[trigger] rest[i],
                        centre,
                        hub,
                        extent,
                    );
                assert(rails[i] == rest[i]);
            } else {
                assert(r == new);
                assert(!opposite.contains(rails[last]));
            }
        }
    }
}

/// What one pair of opposite sides inks of the cell's two edges.
#[verifier::spinoff_prover]
#[verifier::rlimit(40)]
proof fn lemma_pair_edges(
    horizontal: bool,
    near_weight: u8,
    far_weight: u8,
    t: int,
    centre: int,
    hub: (int, int),
    extent: int,
    across: int,
)
    requires
        1 <= t <= 4096,
        0 <= centre <= 65535,
        -20000 <= hub.0 <= hub.1 <= 90000,
        1 <= extent <= 65535,
    ensures
        ({
            let (a, c) = pair_runs(horizontal, near_weight, far_weight, t, centre, hub, extent);
            &&& hub.0 > 0 ==> pair_at((a, c), horizontal, 0, across) == rails_cover(
                rails_of(near_weight, t),
                centre,
                across,
            )
            &&& hub.1 < extent ==> pair_at((a, c), horizontal, extent - 1, across) == rails_cover(
                rails_of(far_weight, t),
                centre,
                across,
            )
        }),
{
    reveal(pair_runs);
    let near = rails_of(near_weight, t);
    let far = rails_of(far_weight, t);
    let a = near_runs(horizontal, near, far, centre, hub, extent);
    let c = far_runs(horizontal, far, near, centre, hub, extent);
    assert(modest(near) && modest(far));
    lemma_far_runs(horizontal, far, near, centre, hub, extent);
    if hub.0 > 0 {
        if rails_cover(near, centre, across) {
            let i = choose|i: int|
                0 <= i < near.len() && rail_start(centre, #[trigger] near[i]) <= across < rail_start(
                    centre,
                    near[i],
                ) + near[i].thickness;
            assert(a[i] == near_run(horizontal, near[i], far, centre, hub, extent));
            assert(a.contains(a[i]));
            assert(run_at(a[i], horizontal, 0, across));
        }
        assert forall|r: Run|
            (a.contains(r) || c.contains(r)) && #[trigger] run_at(r, horizontal, 0, across) implies rails_cover(
            near,
            centre,
            across,
        ) by {
            if a.contains(r) {
                let k = choose|k: int| 0 <= k < a.len() && a[k] == r;
                assert(r == near_run(horizontal, near[k], far, centre, hub, extent));
            } else {
                let i = choose|i: int|
                    0 <= i < far.len() && !near.contains(far[i]) && r == far_run(
                        horizontal,
                        #[trigger] far[i],
                        centre,
                        hub,
                        extent,
                    );
                assert(r.from > 0);
            }
        }
    }
    if hub.1 < extent {
        if rails_cover(far, centre, across) {
            let i = choose|i: int|
                0 <= i < far.len() && rail_start(centre, #[trigger] far[i]) <= across < rail_start(
                    centre,
                    far[i],
                ) + far[i].thickness;
            if near.contains(far[i]) {
                let k = choose|k: int| 0 <= k < near.len() && near[k] == far[i];
                assert(far.contains(near[k]));
                assert(a[k] == near_run(horizontal, near[k], far, centre, hub, extent));
                assert(a.contains(a[k]));
                assert(run_at(a[k], horizontal, extent - 1, across));
            } else {
                let r = far_run(horizontal, far[i], centre, hub, extent);
                assert(c.contains(r));
                assert(run_at(r, horizontal, extent - 1, across));
            }
        }
        assert forall|r: Run|
            (a.contains(r) || c.contains(r)) && #[trigger] run_at(
                r,
                horizontal,
                extent - 1,
                across,
            ) implies rails_cover(far, centre, across) by {
            if a.contains(r) {
                let k = choose|k: int| 0 <= k < a.len() && a[k] == r;
                assert(r == near_run(horizontal, near[k], far, centre, hub, extent));
                assert(far.contains(near[k]));
                let i = choose|i: int| 0 <= i < far.len() && far[i] == near[k];
                assert(rail_start(centre, far[i]) <= across);
            } else {
                let i = choose|i: int|
                    0 <= i < far.len() && !near.contains(far[i]) && r == far_run(
                        horizontal,
                        #[trigger] far[i],
                        centre,
                        hub,
                        extent,
                    );
                assert(rail_start(centre, far[i]) <= across);
            }
        }
    }
}

/// The runs of one pair of opposite sides lie inside their hub, across them.
proof fn lemma_pair_inside(
    horizontal: bool,
    near_weight: u8,
    far_weight: u8,
    t: int,
    centre: int,
    hub: (int, int),
    extent: int,
    r: Run,
)
    requires
        1 <= t <= 4096,
        0 <= centre <= 65535,
        ({
            let (a, c) = pair_runs(horizontal, near_weight, far_weight, t, centre, hub, extent);
            a.contains(r) || c.contains(r)
        }),
    ensures
        r.horizontal == horizontal,
        hub_of(near_weight, far_weight, t, centre).0 <= r.lo,
        r.hi <= hub_of(near_weight, far_weight, t, centre).1,
{
    reveal(pair_runs);
    reveal(hub_of);
    let near = rails_of(near_weight, t);
    let far = rails_of(far_weight, t);
    let both = near + far;
    let (a, c) = pair_runs(horizontal, near_weight, far_weight, t, centre, hub, extent);
    assert(modest(near) && modest(far));
    lemma_far_runs(horizontal, far, near, centre, hub, extent);
    if a.contains(r) {
        let k = choose|k: int| 0 <= k < a.len() && a[k] == r;
        assert(r == near_run(horizontal, near[k], far, centre, hub, extent));
        assert(both[k] == near[k]);
        lemma_inside_hub(centre, both, k);
    } else {
        let i = choose|i: int|
            0 <= i < far.len() && !near.contains(far[i]) && r == far_run(
                horizontal,
                #[trigger] far[i],
                centre,
                hub,
                extent,
            );
        assert(both[near.len() + i] == far[i]);
        lemma_inside_hub(centre, both, near.len() + i);
    }
}

/// Whether one of the runs of a pair of sides covers a place.
spec fn pair_at(parts: (Seq<Run>, Seq<Run>), horizontal: bool, along: int, across: int) -> bool {
    exists|r: Run|
        (parts.0.contains(r) || parts.1.contains(r)) && #[trigger] run_at(
            r,
            horizontal,
            along,
            across,
        )
}

/// A pixel that no stroke across covers shows what the strokes along it ink.
proof fn lemma_edge_pixel(
    parts: (Seq<Run>, Seq<Run>),
    others: (Seq<Run>, Seq<Run>),
    horizontal: bool,
    dashes: u8,
    w: int,
    h: int,
    x: int,
    y: int,
)
    requires
        forall|r: Run| parts.0.contains(r) || parts.1.contains(r) ==> #[trigger] r.horizontal
            == horizontal,
        forall|r: Run|
            others.0.contains(r) || others.1.contains(r) ==> #[trigger] r.horizontal == !horizontal
                && !run_at(
                r,
                !horizontal,
                if horizontal {
                    y
                } else {
                    x
                },
                if horizontal {
                    x
                } else {
                    y
                },
            ),
    ensures
        ({
            let runs = if horizontal {
                parts.0 + parts.1 + others.0 + others.1
            } else {
                others.0 + others.1 + parts.0 + parts.1
            };
            runs_ink(runs, dashes, w, h, x, y) <==> {
                if horizontal {
                    pair_at(parts, true, x, y) && dash_on(dashes, w, x)
                } else {
                    pair_at(parts, false, y, x) && dash_on(dashes, h, y)
                }
            }
        }),
{
    let runs = if horizontal {
        parts.0 + parts.1 + others.0 + others.1
    } else {
        others.0 + others.1 + parts.0 + parts.1
    };
    let along = if horizontal {
        x
    } else {
        y
    };
    let across = if horizontal {
        y
    } else {
        x
    };
    let on = if horizontal {
        dash_on(dashes, w, x)
    } else {
        dash_on(dashes, h, y)
    };
    let first = if horizontal {
        0int
    } else {
        (others.0.len() + others.1.len()) as int
    };
    let second = if horizontal {
        (parts.0.len() + parts.1.len()) as int
    } else {
        0int
    };
    if runs_ink(runs, dashes, w, h, x, y) {
        let k = choose|k: int| 0 <= k < runs.len() && run_inks(#[trigger] runs[k], dashes, w, h, x, y);
        let r = runs[k];
        if first <= k < first + parts.0.len() {
            assert(r == parts.0[k - first]);
            assert(parts.0.contains(r));
        } else if first + parts.0.len() <= k < first + parts.0.len() + parts.1.len() {
            assert(r == parts.1[k - first - parts.0.len()]);
            assert(parts.1.contains(r));
        } else if second <= k < second + others.0.len() {
            assert(r == others.0[k - second]);
            assert(others.0.contains(r));
            assert(r.horizontal == !horizontal);
        } else {
            assert(r == others.1[k - second - others.0.len()]);
            assert(others.1.contains(r));
            assert(r.horizontal == !horizontal);
        }
        assert(r.horizontal == horizontal);
        assert(run_at(r, horizontal, along, across));
    }
    if on && pair_at(parts, horizontal, along, across) {
        let r = choose|r: Run|
            (parts.0.contains(r) || parts.1.contains(r)) && #[trigger] run_at(
                r,
                horizontal,
                along,
                across,
            );
        if parts.0.contains(r) {
            let k = choose|k: int| 0 <= k < parts.0.len() && parts.0[k] == r;
            assert(runs[first + k] == r);
        } else {
            let k = choose|k: int| 0 <= k < parts.1.len() && parts.1[k] == r;
            assert(runs[first + parts.0.len() + k] == r);
        }
    }
}

/// Whether the strokes up and down leave the left edge free, or the right one.
pub open spec fn sides_free(b: BoxSpec, w: int, h: int) -> (bool, bool) {
    let upright = rails_of(b.up, light(h)) + rails_of(b.down, light(h));
    (lowest(w / 2, upright) > 0, highest(w / 2, upright) < w)
}

/// Whether the strokes to the sides leave the top edge free, or the bottom one.
pub open spec fn ends_free(b: BoxSpec, w: int, h: int) -> (bool, bool) {
    let across = rails_of(b.left, light(h)) + rails_of(b.right, light(h));
    (lowest(h / 2, across) > 0, highest(h / 2, across) < h)
}

/// The left and the right edge each carry the weight of their own direction:
/// what is inked there are the rails of that weight, where the pattern of dashes
/// has ink. In a cell so narrow that the strokes up and down cover an edge, that
/// edge is not spoken of.
pub proof fn law_sides_carry_their_weight(b: BoxSpec, w: u16, h: u16, y: int)
    requires
        b.shape is Line,
        w >= 1,
        0 <= y < h,
    ensures
        sides_free(b, w as int, h as int).0 ==> box_pixel(b, w as int, h as int, 0, y) == inked(
            rails_cover(rails_of(b.left, light(h as int)), h as int / 2, y) && dash_on(
                b.dashes,
                w as int,
                0,
            ),
        ),
        sides_free(b, w as int, h as int).1 ==> box_pixel(b, w as int, h as int, w - 1, y) == inked(
            rails_cover(rails_of(b.right, light(h as int)), h as int / 2, y) && dash_on(
                b.dashes,
                w as int,
                w - 1,
            ),
        ),
{
    let (wi, hi) = (w as int, h as int);
    let t = light(hi);
    let hub_x = hub_of(b.up, b.down, t, wi / 2);
    let hub_y = hub_of(b.left, b.right, t, hi / 2);
    lemma_hub_of(b.up, b.down, t, wi / 2);
    lemma_hub_of(b.left, b.right, t, hi / 2);
    assert(hub_x.0 > 0 <==> sides_free(b, wi, hi).0) by {
        reveal(hub_of);
    }
    assert(hub_x.1 < wi <==> sides_free(b, wi, hi).1) by {
        reveal(hub_of);
    }
    let parts = pair_runs(true, b.left, b.right, t, hi / 2, hub_x, wi);
    let others = pair_runs(false, b.up, b.down, t, wi / 2, hub_y, hi);
    lemma_line_runs_split(b, wi, hi);
    lemma_pair_edges(true, b.left, b.right, t, hi / 2, hub_x, wi, y);
    assert forall|r: Run| parts.0.contains(r) || parts.1.contains(r) implies #[trigger] r.horizontal
        == true by {
        lemma_pair_inside(true, b.left, b.right, t, hi / 2, hub_x, wi, r);
    }
    assert forall|r: Run| others.0.contains(r) || others.1.contains(r) implies #[trigger] r.horizontal
        == false && hub_x.0 <= r.lo && r.hi <= hub_x.1 by {
        lemma_pair_inside(false, b.up, b.down, t, wi / 2, hub_y, hi, r);
    }
    if hub_x.0 > 0 {
        lemma_edge_pixel(parts, others, true, b.dashes, wi, hi, 0, y);
    }
    if hub_x.1 < wi {
        lemma_edge_pixel(parts, others, true, b.dashes, wi, hi, wi - 1, y);
    }
}

/// The top and the bottom edge each carry the weight of their own direction.
/// In a cell so low that the strokes to the sides cover an edge, that edge is not
/// spoken of.
pub proof fn law_ends_carry_their_weight(b: BoxSpec, w: u16, h: u16, x: int)
    requires
        b.shape is Line,
        h >= 1,
        0 <= x < w,
    ensures
        ends_free(b, w as int, h as int).0 ==> box_pixel(b, w as int, h as int, x, 0) == inked(
            rails_cover(rails_of(b.up, light(h as int)), w as int / 2, x) && dash_on(
                b.dashes,
                h as int,
                0,
            ),
        ),
        ends_free(b, w as int, h as int).1 ==> box_pixel(b, w as int, h as int, x, h - 1) == inked(
            rails_cover(rails_of(b.down, light(h as int)), w as int / 2, x) && dash_on(
                b.dashes,
                h as int,
                h - 1,
            ),
        ),
{
    let (wi, hi) = (w as int, h as int);
    let t = light(hi);
    let hub_x = hub_of(b.up, b.down, t, wi / 2);
    let hub_y = hub_of(b.left, b.right, t, hi / 2);
    lemma_hub_of(b.up, b.down, t, wi / 2);
    lemma_hub_of(b.left, b.right, t, hi / 2);
    assert(hub_y.0 > 0 <==> ends_free(b, wi, hi).0) by {
        reveal(hub_of);
    }
    assert(hub_y.1 < hi <==> ends_free(b, wi, hi).1) by {
        reveal(hub_of);
    }
    let others = pair_runs(true, b.left, b.right, t, hi / 2, hub_x, wi);
    let parts = pair_runs(false, b.up, b.down, t, wi / 2, hub_y, hi);
    lemma_line_runs_split(b, wi, hi);
    lemma_pair_edges(false, b.up, b.down, t, wi / 2, hub_y, hi, x);
    assert forall|r: Run| parts.0.contains(r) || parts.1.contains(r) implies #[trigger] r.horizontal
        == false by {
        lemma_pair_inside(false, b.up, b.down, t, wi / 2, hub_y, hi, r);
    }
    assert forall|r: Run| others.0.contains(r) || others.1.contains(r) implies #[trigger] r.horizontal
        == true && hub_y.0 <= r.lo && r.hi <= hub_y.1 by {
        lemma_pair_inside(true, b.left, b.right, t, hi / 2, hub_x, wi, r);
    }
    if hub_y.0 > 0 {
        lemma_edge_pixel(parts, others, false, b.dashes, wi, hi, x, 0);
    }
    if hub_y.1 < hi {
        lemma_edge_pixel(parts, others, false, b.dashes, wi, hi, x, hi - 1);
    }
}

/// A heavy stroke covers all that a light one does, and more of the cell.
pub proof fn law_heavy_is_heavier(h: u16, y: int)
    requires
        h >= 2,
    ensures
        ({
            let (thin, thick) = (rails_of(1, light(h as int)), rails_of(2, light(h as int)));
            let centre = h as int / 2;
            let edge = centre - light(h as int);
            &&& rails_cover(thin, centre, y) ==> rails_cover(thick, centre, y)
            &&& 0 <= edge < h && rails_cover(thick, centre, edge) && !rails_cover(thin, centre, edge)
        }),
{
    let t = light(h as int);
    let (thin, thick) = (rails_of(1, t), rails_of(2, t));
    let centre = h as int / 2;
    assert(rail_start(centre, thick[0]) == centre - t);
    if rails_cover(thin, centre, y) {
        assert(rail_start(centre, thin[0]) <= y < rail_start(centre, thin[0]) + t);
        assert(rail_start(centre, thick[0]) <= y < rail_start(centre, thick[0]) + 2 * t);
    }
    assert(rail_start(centre, thick[0]) <= centre - t);
}

/// The hub of figures in a cell is small enough to compute with.
proof fn lemma_hub_small(centre: int, rails: Seq<Rail>)
    requires
        0 <= centre <= 65535,
        modest(rails),
    ensures
        -20000 <= lowest(centre, rails) <= highest(centre, rails) <= 90000,
    decreases rails.len(),
{
    if rails.len() > 0 {
        assert(rails.last() == rails[rails.len() - 1]);
        assert(modest(rails.drop_last()));
        lemma_hub_small(centre, rails.drop_last());
    }
}

/// A light stroke is a sixteenth of the cell's height, to the nearest pixel, and
/// at least one.
pub proof fn law_light_strokes(height: u16)
    ensures
        light(height as int) >= 1,
        height >= 8 ==> -8 <= 16 * light(height as int) - height <= 8,
        height < 24 ==> light(height as int) == 1,
{
}

/// A light line covers its thickness about the centre, a heavy one twice that,
/// and a double one two light lines with as much between them.
pub proof fn law_weights_cover_their_width(t: int, centre: int, at: int)
    requires
        1 <= t <= 4096,
    ensures
        rails_cover(rails_of(1, t), centre, at) <==> centre - t / 2 <= at < centre - t / 2 + t,
        rails_cover(rails_of(2, t), centre, at) <==> centre - t <= at < centre + t,
        rails_cover(rails_of(3, t), centre, at) <==> (centre - t - t / 2 <= at < centre - t / 2 || (
        centre + t - t / 2 <= at < centre + 2 * t - t / 2)),
        !rails_cover(rails_of(0, t), centre, at),
{
    let one = rails_of(1, t);
    let two = rails_of(2, t);
    let three = rails_of(3, t);
    assert(rail_start(centre, one[0]) == centre - t / 2);
    assert(rail_start(centre, two[0]) == centre - t);
    assert(rail_start(centre, three[0]) == centre - t - t / 2);
    assert(rail_start(centre, three[1]) == centre + t - t / 2);
}

/// Dashes begin at whole periods and take up six tenths of one, each to the
/// nearest pixel.
pub proof fn law_dashes_are_even(n: int, extent: int, i: int)
    requires
        n >= 1,
        0 <= i < n,
        extent >= 0,
    ensures
        -n <= 2 * (n * dash_start(n, extent, i)) - 2 * (i * extent) <= n,
        -5 * n <= 10 * (n * dash_stop(n, extent, i)) - 10 * (i * extent) - 6 * extent <= 5 * n,
{
    let a = 2 * i * extent + n;
    let p = dash_start(n, extent, i);
    assert(a == (2 * n) * p + a % (2 * n) && 0 <= a % (2 * n) < 2 * n) by (nonlinear_arith)
        requires
            n >= 1,
            p == a / (2 * n),
    ;
    assert((2 * n) * p == 2 * (n * p)) by (nonlinear_arith);
    assert(2 * i * extent == 2 * (i * extent)) by (nonlinear_arith);
    let b = 2 * (5 * i + 3) * extent + 5 * n;
    let q = dash_stop(n, extent, i);
    assert(b == (10 * n) * q + b % (10 * n) && 0 <= b % (10 * n) < 10 * n) by (nonlinear_arith)
        requires
            n >= 1,
            q == b / (10 * n),
    ;
    assert((10 * n) * q == 10 * (n * q)) by (nonlinear_arith);
    assert(2 * (5 * i + 3) * extent == 10 * (i * extent) + 6 * extent) by (nonlinear_arith);
}

/// The two diagonals are each other's mirror image.
pub proof fn law_diagonals_mirror_each_other(w: int, h: int, x: int, y: int)
    ensures
        diagonal_pixel(Shape::Slash, w, h, x, y) == diagonal_pixel(
            Shape::Backslash,
            w,
            h,
            w - 1 - x,
            y,
        ),
{
    assert((2 * x + 1) * h + (2 * y + 1) * w - 2 * w * h == -((2 * (w - 1 - x) + 1) * h - (2 * y
        + 1) * w)) by (nonlinear_arith);
}

/// A pixel whose centre lies on the falling diagonal is inked in full, and so is
/// one on the rising diagonal; a cross has both.
pub proof fn law_diagonals_run_from_corner_to_corner(w: int, h: int, x: int, y: int)
    requires
        w >= 1,
        h >= 1,
    ensures
        (2 * x + 1) * h == (2 * y + 1) * w ==> diagonal_pixel(Shape::Backslash, w, h, x, y) == 255
            && diagonal_pixel(Shape::Cross, w, h, x, y) == 255,
        (2 * x + 1) * h + (2 * y + 1) * w == 2 * w * h ==> diagonal_pixel(Shape::Slash, w, h, x, y)
            == 255 && diagonal_pixel(Shape::Cross, w, h, x, y) == 255,
{
    let t = light(h);
    let den = w * w + h * h;
    let p = slack(t, 255);
    assert(0 * 0 == 0);
    assert(p * p * den >= 0) by (nonlinear_arith)
        requires
            den == w * w + h * h,
    ;
    assert(p >= 0);
    assert(line_reaches(0, den, t, 255));
}

proof fn lemma_nearer_is_brighter(near: int, far: int, den: int, stroke: int, v: int)
    requires
        near <= far,
        0 <= v,
    ensures
        line_level(near, den, stroke, v) >= line_level(far, den, stroke, v),
        0 <= line_level(far, den, stroke, v) <= v,
    decreases v,
{
    if v > 0 {
        lemma_nearer_is_brighter(near, far, den, stroke, v - 1);
        if line_reaches(far, den, stroke, v) {
            assert(255 * 255 * near <= 255 * 255 * far) by (nonlinear_arith)
                requires
                    near <= far,
            ;
            assert(line_reaches(near, den, stroke, v));
        }
    }
}

/// The nearer a pixel is to a diagonal, the brighter it is, and one farther from
/// it than a stroke and a pixel is not inked.
pub proof fn law_diagonals_fade_away(
    shape: Shape,
    w: int,
    h: int,
    x: int,
    y: int,
    u: int,
    v: int,
)
    ensures
        diagonal_distance(shape, x, y, w, h) <= diagonal_distance(shape, u, v, w, h)
            ==> diagonal_pixel(shape, w, h, x, y) >= diagonal_pixel(shape, w, h, u, v),
        ({
            let d = diagonal_distance(shape, x, y, w, h);
            d * d > (1 + light(h)) * (1 + light(h)) * (w * w + h * h) ==> diagonal_pixel(
                shape,
                w,
                h,
                x,
                y,
            ) == 0
        }),
{
    let t = light(h);
    let den = w * w + h * h;
    let d = diagonal_distance(shape, x, y, w, h);
    let e = diagonal_distance(shape, u, v, w, h);
    lemma_level_range(d * d, den, t, 255);
    lemma_level_range(e * e, den, t, 255);
    if d <= e {
        assert(d * d <= e * e) by (nonlinear_arith)
            requires
                0 <= d <= e,
        ;
        lemma_nearer_is_brighter(d * d, e * e, den, t, 255);
    }
    if d * d > (1 + t) * (1 + t) * den {
        assert(den >= 0) by (nonlinear_arith)
            requires
                den == w * w + h * h,
        ;
        lemma_too_far(d * d, den, t, 255);
    }
}

proof fn lemma_too_far(num: int, den: int, stroke: int, v: int)
    requires
        den >= 0,
        stroke >= 1,
        0 <= v <= 255,
        num > (1 + stroke) * (1 + stroke) * den,
    ensures
        line_level(num, den, stroke, v) == 0,
    decreases v,
{
    if v > 0 {
        let p = slack(stroke, v);
        let s = 1 + stroke;
        if p >= 0 {
            assert(p * p <= (255 * s) * (255 * s)) by (nonlinear_arith)
                requires
                    0 <= p <= 255 * s,
            ;
            assert(p * p * den <= (255 * s) * (255 * s) * den) by (nonlinear_arith)
                requires
                    p * p <= (255 * s) * (255 * s),
                    den >= 0,
            ;
            assert((255 * s) * (255 * s) * den == 255 * 255 * (s * s * den)) by (nonlinear_arith);
            assert(255 * 255 * num > 255 * 255 * (s * s * den)) by (nonlinear_arith)
                requires
                    num > s * s * den,
            ;
        }
        assert(!line_reaches(num, den, stroke, v));
        lemma_too_far(num, den, stroke, v - 1);
    }
}

/// Rounded corners that open to opposite sides are each other's mirror image.
pub proof fn law_arcs_mirror_each_other(
    b: BoxSpec,
    c: BoxSpec,
    w: int,
    h: int,
    x: int,
    y: int,
)
    ensures
        (b.right > 0) != (c.right > 0) && (b.down > 0) == (c.down > 0) ==> arc_pixel(b, w, h, x, y)
            == arc_pixel(c, w, h, w - 1 - x, y),
        (b.right > 0) == (c.right > 0) && (b.down > 0) != (c.down > 0) ==> arc_pixel(b, w, h, x, y)
            == arc_pixel(c, w, h, x, h - 1 - y),
{
    let l = (2 * x + 1) * h;
    let r = (2 * (w - 1 - x) + 1 - 2 * w) * h;
    assert(r == -l) by (nonlinear_arith)
        requires
            l == (2 * x + 1) * h,
            r == (2 * (w - 1 - x) + 1 - 2 * w) * h,
    ;
    let l2 = (2 * x + 1 - 2 * w) * h;
    let r2 = (2 * (w - 1 - x) + 1) * h;
    assert(r2 == -l2) by (nonlinear_arith)
        requires
            l2 == (2 * x + 1 - 2 * w) * h,
            r2 == (2 * (w - 1 - x) + 1) * h,
    ;
    let u = (2 * y + 1) * w;
    let d = (2 * (h - 1 - y) + 1 - 2 * h) * w;
    assert(d == -u) by (nonlinear_arith)
        requires
            u == (2 * y + 1) * w,
            d == (2 * (h - 1 - y) + 1 - 2 * h) * w,
    ;
    let u2 = (2 * y + 1 - 2 * h) * w;
    let d2 = (2 * (h - 1 - y) + 1) * w;
    assert(d2 == -u2) by (nonlinear_arith)
        requires
            u2 == (2 * y + 1 - 2 * h) * w,
            d2 == (2 * (h - 1 - y) + 1) * w,
    ;
    assert((-l) * (-l) == l * l && (-l2) * (-l2) == l2 * l2 && (-u) * (-u) == u * u && (-u2) * (-u2)
        == u2 * u2) by (nonlinear_arith);
}

/// A rounded corner is the quarter of an ellipse about the corner it opens to,
/// from the middle of one side to the middle of another: a pixel whose centre
/// lies on it is inked in full.
pub proof fn law_arcs_run_from_side_to_side(b: BoxSpec, w: int, h: int, x: int, y: int)
    requires
        w >= 1,
        h >= 1,
    ensures
        ({
            let dx = if b.right > 0 {
                2 * w - 2 * x - 1
            } else {
                2 * x + 1
            };
            let dy = if b.down > 0 {
                2 * h - 2 * y - 1
            } else {
                2 * y + 1
            };
            (dx * h) * (dx * h) + (dy * w) * (dy * w) == (w * h) * (w * h) ==> arc_pixel(
                b,
                w,
                h,
                x,
                y,
            ) == 255
        }),
{
    let dx = if b.right > 0 {
        2 * w - 2 * x - 1
    } else {
        2 * x + 1
    };
    let dy = if b.down > 0 {
        2 * h - 2 * y - 1
    } else {
        2 * y + 1
    };
    let area = w * h;
    let r = arc_radius(b, x, y, w, h);
    assert(r == (dx * h) * (dx * h) + (dy * w) * (dy * w)) by {
        let ex = (2 * x + 1 - if b.right > 0 {
            2 * w
        } else {
            0
        }) * h;
        let ey = (2 * y + 1 - if b.down > 0 {
            2 * h
        } else {
            0
        }) * w;
        assert(ex == dx * h || ex == -(dx * h)) by {
            if b.right > 0 {
                assert((2 * x + 1 - 2 * w) * h == -((2 * w - 2 * x - 1) * h)) by (nonlinear_arith);
            }
        }
        assert(ey == dy * w || ey == -(dy * w)) by {
            if b.down > 0 {
                assert((2 * y + 1 - 2 * h) * w == -((2 * h - 2 * y - 1) * w)) by (nonlinear_arith);
            }
        }
        let (m, n) = (dx * h, dy * w);
        assert((-m) * (-m) == m * m && (-n) * (-n) == n * n) by (nonlinear_arith);
    }
    if r == area * area {
        let t = light(h);
        let p = slack(t, 255);
        let k = 255 * arc_scale(w, h);
        let outer = (k + p) * area;
        let inner = (k - p) * area;
        assert(area >= 1) by (nonlinear_arith)
            requires
                area == w * h,
                w >= 1,
                h >= 1,
        ;
        assert(k * k * (area * area) <= outer * outer && (inner <= 0 || inner * inner <= k * k * (
        area * area))) by {
            let big = k * area;
            let extra = p * area;
            assert(extra >= 0) by (nonlinear_arith)
                requires
                    p >= 0,
                    area >= 1,
                    extra == p * area,
            ;
            assert(big >= 0) by (nonlinear_arith)
                requires
                    k >= 0,
                    area >= 1,
                    big == k * area,
            ;
            assert(outer == big + extra && inner == big - extra && k * k * (area * area) == big
                * big) by (nonlinear_arith)
                requires
                    outer == (k + p) * area,
                    inner == (k - p) * area,
                    big == k * area,
                    extra == p * area,
            ;
            assert(big * big <= (big + extra) * (big + extra)) by (nonlinear_arith)
                requires
                    big >= 0,
                    extra >= 0,
            ;
            if inner > 0 {
                assert((big - extra) * (big - extra) <= big * big) by (nonlinear_arith)
                    requires
                        big - extra > 0,
                        extra >= 0,
                ;
            }
        }
        assert(arc_reaches(r, area, arc_scale(w, h), t, 255));
    }
}

/// The blocks from below fill the nearest number of rows to their eighths, from
/// the bottom up; those from the left the nearest number of columns, from the
/// left; the shades ink every pixel by quarters.
pub proof fn law_blocks_fill_their_eighths(
    ch: char,
    n: int,
    w: u16,
    h: u16,
    cov: Coverage,
    x: int,
    y: int,
)
    requires
        call_ensures(render, (ch, w, h), Some(cov)),
        1 <= n <= 8,
        0 <= x < w,
        0 <= y < h,
    ensures
        ch as int == 0x2580 + n ==> exists|rows: int|
            #![trigger h - rows]
            -4 <= 8 * rows - h * n <= 4 && cov.pixel(x, y) == if y >= h - rows {
                255u8
            } else {
                0u8
            },
        ch as int == 0x2590 - n ==> exists|columns: int|
            #![trigger w - columns]
            -4 <= 8 * columns - w * n <= 4 && cov.pixel(x, y) == if x < columns {
                255u8
            } else {
                0u8
            },
        ch as int == 0x2590 + n && n <= 3 ==> cov.pixel(x, y) == 64 * n,
        ch == '\u{2580}' ==> cov.pixel(x, y) == if y < h as int / 2 {
            255u8
        } else {
            0u8
        },
        ch == '\u{2588}' ==> cov.pixel(x, y) == 255,
        ch == '\u{2598}' ==> cov.pixel(x, y) == if x < w as int / 2 && y < h as int / 2 {
            255u8
        } else {
            0u8
        },
        ch == '\u{259D}' ==> cov.pixel(x, y) == if x >= w as int / 2 && y < h as int / 2 {
            255u8
        } else {
            0u8
        },
        ch == '\u{2596}' ==> cov.pixel(x, y) == if x < w as int / 2 && y >= h as int / 2 {
            255u8
        } else {
            0u8
        },
{
    assert(cov.pixel(x, y) == glyph_pixel(ch, w as int, h as int, x, y));
    if ch as int == 0x2580 + n {
        let rows = if n == 8 {
            h as int
        } else {
            eighths(h as int, n)
        };
        assert(h * 8 == 8 * h);
        assert(h - rows <= h);
    }
    if ch as int == 0x2590 - n {
        let columns = if n == 8 {
            w as int
        } else {
            eighths(w as int, n)
        };
        assert(w * 8 == 8 * w);
        assert(w - columns <= w);
    }
}


/// The weights that a character's strokes have, in the order up, down, left and
/// right.
pub open spec fn weighs(ch: char, up: int, down: int, left: int, right: int) -> bool {
    let b = decoded(BOX_TABLE[ch as int - 0x2500]);
    b.shape is Line && b.up == up && b.down == down && b.left == left && b.right == right
}

/// Lines and their halves: horizontal before vertical, light before heavy, solid
/// and then with three, four and two dashes.
pub proof fn law_lines_are_named_in_order(ch: char, k: int, heavy: int)
    requires
        0 <= heavy < 2,
    ensures
        ch as int == 0x2500 + heavy ==> weighs(ch, 0, 0, 1 + heavy, 1 + heavy),
        ch as int == 0x2502 + heavy ==> weighs(ch, 1 + heavy, 1 + heavy, 0, 0),
        ch as int == 0x2504 + heavy || ch as int == 0x2508 + heavy || ch as int == 0x254C + heavy
            ==> weighs(ch, 0, 0, 1 + heavy, 1 + heavy),
        ch as int == 0x2506 + heavy || ch as int == 0x250A + heavy || ch as int == 0x254E + heavy
            ==> weighs(ch, 1 + heavy, 1 + heavy, 0, 0),
        0x2504 <= ch as int <= 0x2507 ==> decoded(BOX_TABLE[ch as int - 0x2500]).dashes == 3,
        0x2508 <= ch as int <= 0x250B ==> decoded(BOX_TABLE[ch as int - 0x2500]).dashes == 4,
        0x254C <= ch as int <= 0x254F ==> decoded(BOX_TABLE[ch as int - 0x2500]).dashes == 2,
        0x250C <= ch as int <= 0x254B || 0x2500 <= ch as int <= 0x2503 || 0x2550 <= ch as int
            <= 0x257F ==> decoded(BOX_TABLE[ch as int - 0x2500]).dashes == 0,
        ch as int == 0x2574 + 4 * heavy ==> weighs(ch, 0, 0, 1 + heavy, 0),
        ch as int == 0x2575 + 4 * heavy ==> weighs(ch, 1 + heavy, 0, 0, 0),
        ch as int == 0x2576 + 4 * heavy ==> weighs(ch, 0, 0, 0, 1 + heavy),
        ch as int == 0x2577 + 4 * heavy ==> weighs(ch, 0, 1 + heavy, 0, 0),
        ch as int == 0x257C ==> weighs(ch, 0, 0, 1, 2),
        ch as int == 0x257D ==> weighs(ch, 1, 2, 0, 0),
        ch as int == 0x257E ==> weighs(ch, 0, 0, 2, 1),
        ch as int == 0x257F ==> weighs(ch, 2, 1, 0, 0),
{
    lemma_table_low();
    lemma_table_high();
}

/// Corners open down and right, down and left, up and right, up and left; of
/// each the stroke to the side gets heavy before the upright one.
pub proof fn law_corners_are_named_in_order(ch: char, upright: int, side: int)
    requires
        0 <= upright < 2,
        0 <= side < 2,
    ensures
        ch as int == 0x250C + 2 * upright + side ==> weighs(ch, 0, 1 + upright, 0, 1 + side),
        ch as int == 0x2510 + 2 * upright + side ==> weighs(ch, 0, 1 + upright, 1 + side, 0),
        ch as int == 0x2514 + 2 * upright + side ==> weighs(ch, 1 + upright, 0, 0, 1 + side),
        ch as int == 0x2518 + 2 * upright + side ==> weighs(ch, 1 + upright, 0, 1 + side, 0),
        0x251C <= ch as int <= 0x2523 ==> {
            let b = decoded(BOX_TABLE[ch as int - 0x2500]);
            b.shape is Line && b.left == 0 && b.up > 0 && b.down > 0 && b.right > 0
        },
        0x2524 <= ch as int <= 0x252B ==> {
            let b = decoded(BOX_TABLE[ch as int - 0x2500]);
            let mirrored = decoded(BOX_TABLE[ch as int - 0x2508]);
            b.shape is Line && b.right == 0 && b.left == mirrored.right && b.up == mirrored.up
                && b.down == mirrored.down
        },
        0x252C <= ch as int <= 0x2533 ==> {
            let b = decoded(BOX_TABLE[ch as int - 0x2500]);
            b.shape is Line && b.up == 0 && b.down > 0 && b.left > 0 && b.right > 0
        },
        0x2534 <= ch as int <= 0x253B ==> {
            let b = decoded(BOX_TABLE[ch as int - 0x2500]);
            let mirrored = decoded(BOX_TABLE[ch as int - 0x2508]);
            b.shape is Line && b.down == 0 && b.up == mirrored.down && b.left == mirrored.left
                && b.right == mirrored.right
        },
        0x253C <= ch as int <= 0x254B ==> {
            let b = decoded(BOX_TABLE[ch as int - 0x2500]);
            b.shape is Line && 1 <= b.up <= 2 && 1 <= b.down <= 2 && 1 <= b.left <= 2 && 1
                <= b.right <= 2
        },
        ch as int == 0x251C ==> weighs(ch, 1, 1, 0, 1),
        ch as int == 0x2523 ==> weighs(ch, 2, 2, 0, 2),
        ch as int == 0x252C ==> weighs(ch, 0, 1, 1, 1),
        ch as int == 0x2533 ==> weighs(ch, 0, 2, 2, 2),
        ch as int == 0x253C ==> weighs(ch, 1, 1, 1, 1),
        ch as int == 0x254B ==> weighs(ch, 2, 2, 2, 2),
{
    lemma_table_low();
}

/// Double lines, rounded corners and diagonals.
pub proof fn law_figures_are_named_in_order(ch: char)
    ensures
        ch as int == 0x2550 ==> weighs(ch, 0, 0, 3, 3),
        ch as int == 0x2551 ==> weighs(ch, 3, 3, 0, 0),
        ch as int == 0x2552 ==> weighs(ch, 0, 1, 0, 3),
        ch as int == 0x2553 ==> weighs(ch, 0, 3, 0, 1),
        ch as int == 0x2554 ==> weighs(ch, 0, 3, 0, 3),
        ch as int == 0x2557 ==> weighs(ch, 0, 3, 3, 0),
        ch as int == 0x255A ==> weighs(ch, 3, 0, 0, 3),
        ch as int == 0x255D ==> weighs(ch, 3, 0, 3, 0),
        ch as int == 0x2560 ==> weighs(ch, 3, 3, 0, 3),
        ch as int == 0x2563 ==> weighs(ch, 3, 3, 3, 0),
        ch as int == 0x2566 ==> weighs(ch, 0, 3, 3, 3),
        ch as int == 0x2569 ==> weighs(ch, 3, 0, 3, 3),
        ch as int == 0x256C ==> weighs(ch, 3, 3, 3, 3),
        0x256D <= ch as int <= 0x2570 ==> {
            let b = decoded(BOX_TABLE[ch as int - 0x2500]);
            &&& b.shape is Arc
            &&& b.right > 0 <==> ch as int == 0x256D || ch as int == 0x2570
            &&& b.left > 0 <==> ch as int == 0x256E || ch as int == 0x256F
            &&& b.down > 0 <==> ch as int == 0x256D || ch as int == 0x256E
            &&& b.up > 0 <==> ch as int == 0x256F || ch as int == 0x2570
        },
        ch as int == 0x2571 ==> decoded(BOX_TABLE[ch as int - 0x2500]).shape is Slash,
        ch as int == 0x2572 ==> decoded(BOX_TABLE[ch as int - 0x2500]).shape is Backslash,
        ch as int == 0x2573 ==> decoded(BOX_TABLE[ch as int - 0x2500]).shape is Cross,
{
    lemma_table_high();
}

proof fn lemma_table_low()
    ensures
        BOX_TABLE[0] == 0x000011,
        BOX_TABLE[1] == 0x000022,
        BOX_TABLE[2] == 0x001100,
        BOX_TABLE[3] == 0x002200,
        BOX_TABLE[4] == 0x030011,
        BOX_TABLE[5] == 0x030022,
        BOX_TABLE[6] == 0x031100,
        BOX_TABLE[7] == 0x032200,
        BOX_TABLE[8] == 0x040011,
        BOX_TABLE[9] == 0x040022,
        BOX_TABLE[10] == 0x041100,
        BOX_TABLE[11] == 0x042200,
        BOX_TABLE[12] == 0x000101,
        BOX_TABLE[13] == 0x000102,
        BOX_TABLE[14] == 0x000201,
        BOX_TABLE[15] == 0x000202,
        BOX_TABLE[16] == 0x000110,
        BOX_TABLE[17] == 0x000120,
        BOX_TABLE[18] == 0x000210,
        BOX_TABLE[19] == 0x000220,
        BOX_TABLE[20] == 0x001001,
        BOX_TABLE[21] == 0x001002,
        BOX_TABLE[22] == 0x002001,
        BOX_TABLE[23] == 0x002002,
        BOX_TABLE[24] == 0x001010,
        BOX_TABLE[25] == 0x001020,
        BOX_TABLE[26] == 0x002010,
        BOX_TABLE[27] == 0x002020,
        BOX_TABLE[28] == 0x001101,
        BOX_TABLE[29] == 0x001102,
        BOX_TABLE[30] == 0x002101,
        BOX_TABLE[31] == 0x001201,
        BOX_TABLE[32] == 0x002201,
        BOX_TABLE[33] == 0x002102,
        BOX_TABLE[34] == 0x001202,
        BOX_TABLE[35] == 0x002202,
        BOX_TABLE[36] == 0x001110,
        BOX_TABLE[37] == 0x001120,
        BOX_TABLE[38] == 0x002110,
        BOX_TABLE[39] == 0x001210,
        BOX_TABLE[40] == 0x002210,
        BOX_TABLE[41] == 0x002120,
        BOX_TABLE[42] == 0x001220,
        BOX_TABLE[43] == 0x002220,
        BOX_TABLE[44] == 0x000111,
        BOX_TABLE[45] == 0x000121,
        BOX_TABLE[46] == 0x000112,
        BOX_TABLE[47] == 0x000122,
        BOX_TABLE[48] == 0x000211,
        BOX_TABLE[49] == 0x000221,
        BOX_TABLE[50] == 0x000212,
        BOX_TABLE[51] == 0x000222,
        BOX_TABLE[52] == 0x001011,
        BOX_TABLE[53] == 0x001021,
        BOX_TABLE[54] == 0x001012,
        BOX_TABLE[55] == 0x001022,
        BOX_TABLE[56] == 0x002011,
        BOX_TABLE[57] == 0x002021,
        BOX_TABLE[58] == 0x002012,
        BOX_TABLE[59] == 0x002022,
        BOX_TABLE[60] == 0x001111,
        BOX_TABLE[61] == 0x001121,
        BOX_TABLE[62] == 0x001112,
        BOX_TABLE[63] == 0x001122,
        BOX_TABLE[64] == 0x002111,
        BOX_TABLE[65] == 0x001211,
        BOX_TABLE[66] == 0x002211,
        BOX_TABLE[67] == 0x002121,
        BOX_TABLE[68] == 0x002112,
        BOX_TABLE[69] == 0x001221,
        BOX_TABLE[70] == 0x001212,
        BOX_TABLE[71] == 0x002122,
        BOX_TABLE[72] == 0x001222,
        BOX_TABLE[73] == 0x002221,
        BOX_TABLE[74] == 0x002212,
        BOX_TABLE[75] == 0x002222,
        BOX_TABLE[76] == 0x020011,
        BOX_TABLE[77] == 0x020022,
        BOX_TABLE[78] == 0x021100,
        BOX_TABLE[79] == 0x022200,
{
}

proof fn lemma_table_high()
    ensures
        BOX_TABLE[76] == 0x020011,
        BOX_TABLE[77] == 0x020022,
        BOX_TABLE[78] == 0x021100,
        BOX_TABLE[79] == 0x022200,
        BOX_TABLE[80] == 0x000033,
        BOX_TABLE[81] == 0x003300,
        BOX_TABLE[82] == 0x000103,
        BOX_TABLE[83] == 0x000301,
        BOX_TABLE[84] == 0x000303,
        BOX_TABLE[85] == 0x000130,
        BOX_TABLE[86] == 0x000310,
        BOX_TABLE[87] == 0x000330,
        BOX_TABLE[88] == 0x001003,
        BOX_TABLE[89] == 0x003001,
        BOX_TABLE[90] == 0x003003,
        BOX_TABLE[91] == 0x001030,
        BOX_TABLE[92] == 0x003010,
        BOX_TABLE[93] == 0x003030,
        BOX_TABLE[94] == 0x001103,
        BOX_TABLE[95] == 0x003301,
        BOX_TABLE[96] == 0x003303,
        BOX_TABLE[97] == 0x001130,
        BOX_TABLE[98] == 0x003310,
        BOX_TABLE[99] == 0x003330,
        BOX_TABLE[100] == 0x000133,
        BOX_TABLE[101] == 0x000311,
        BOX_TABLE[102] == 0x000333,
        BOX_TABLE[103] == 0x001033,
        BOX_TABLE[104] == 0x003011,
        BOX_TABLE[105] == 0x003033,
        BOX_TABLE[106] == 0x001133,
        BOX_TABLE[107] == 0x003311,
        BOX_TABLE[108] == 0x003333,
        BOX_TABLE[109] == 0x100101,
        BOX_TABLE[110] == 0x100110,
        BOX_TABLE[111] == 0x101010,
        BOX_TABLE[112] == 0x101001,
        BOX_TABLE[113] == 0x200000,
        BOX_TABLE[114] == 0x300000,
        BOX_TABLE[115] == 0x400000,
        BOX_TABLE[116] == 0x000010,
        BOX_TABLE[117] == 0x001000,
        BOX_TABLE[118] == 0x000001,
        BOX_TABLE[119] == 0x000100,
        BOX_TABLE[120] == 0x000020,
        BOX_TABLE[121] == 0x002000,
        BOX_TABLE[122] == 0x000002,
        BOX_TABLE[123] == 0x000200,
        BOX_TABLE[124] == 0x000012,
        BOX_TABLE[125] == 0x001200,
        BOX_TABLE[126] == 0x000021,
        BOX_TABLE[127] == 0x002100,
{
}

proof fn lemma_squares(a: int, b: int)
    requires
        0 <= a <= b,
    ensures
        a * a <= b * b,
{
    assert(a * a <= b * b) by (nonlinear_arith)
        requires
            0 <= a <= b,
    ;
}

/// The square of 255 times something.
proof fn lemma_scaled_square(n: int, area: int)
    ensures
        (255 * n * area) * (255 * n * area) == 65025 * ((n * area) * (n * area)),
{
    let q = n * area;
    assert(255 * n * area == 255 * q) by (nonlinear_arith)
        requires
            q == n * area,
    ;
    assert((255 * q) * (255 * q) == 65025 * (q * q)) by (nonlinear_arith);
}

proof fn lemma_off_the_arc(radius: int, area: int, m: int, t: int, v: int)
    requires
        area >= 1,
        m >= 2,
        t >= 1,
        0 <= v <= 255,
        m * m * radius > ((m + 1 + t) * area) * ((m + 1 + t) * area) || (m > 1 + t && m * m * radius
            < ((m - 1 - t) * area) * ((m - 1 - t) * area)),
    ensures
        arc_level(radius, area, m, t, v) == 0,
    decreases v,
{
    if v > 0 {
        let p = slack(t, v);
        let k = 255 * m;
        assert(k * k * radius == 65025 * (m * m * radius)) by (nonlinear_arith)
            requires
                k == 255 * m,
        ;
        if p >= 0 {
            if m * m * radius > ((m + 1 + t) * area) * ((m + 1 + t) * area) {
                let far = 255 * (m + 1 + t) * area;
                lemma_scaled_square(m + 1 + t, area);
                assert(0 <= (k + p) * area <= far) by (nonlinear_arith)
                    requires
                        0 <= k + p <= 255 * (m + 1 + t),
                        area >= 0,
                        far == 255 * (m + 1 + t) * area,
                ;
                lemma_squares((k + p) * area, far);
            } else {
                let near = 255 * (m - 1 - t) * area;
                lemma_scaled_square(m - 1 - t, area);
                assert(0 < near <= (k - p) * area) by (nonlinear_arith)
                    requires
                        0 < 255 * (m - 1 - t) <= k - p,
                        area >= 1,
                        near == 255 * (m - 1 - t) * area,
                ;
                lemma_squares(near, (k - p) * area);
            }
        }
        assert(!arc_reaches(radius, area, m, t, v));
        lemma_off_the_arc(radius, area, m, t, v - 1);
    }
}

/// A rounded corner is as thick as a light line: a pixel as far from the ellipse
/// as half of that is inked in full, and one farther than that and a pixel not at
/// all. Distances are taken along the shorter side of the cell.
pub proof fn law_arcs_fade_away(b: BoxSpec, w: int, h: int, x: int, y: int)
    requires
        w >= 2,
        h >= 2,
    ensures
        ({
            let m = if w < h {
                w
            } else {
                h
            };
            let t = light(h);
            let area = w * h;
            let r = m * m * arc_radius(b, x, y, w, h);
            &&& r > ((m + 1 + t) * area) * ((m + 1 + t) * area) ==> arc_pixel(b, w, h, x, y) == 0
            &&& m > 1 + t && r < ((m - 1 - t) * area) * ((m - 1 - t) * area) ==> arc_pixel(
                b,
                w,
                h,
                x,
                y,
            ) == 0
            &&& m >= t && ((m + 1 - t) * area) * ((m + 1 - t) * area) <= r && r <= ((m + t - 1)
                * area) * ((m + t - 1) * area) ==> arc_pixel(b, w, h, x, y) == 255
        }),
{
    let m = if w < h {
        w
    } else {
        h
    };
    let t = light(h);
    let area = w * h;
    let radius = arc_radius(b, x, y, w, h);
    let r = m * m * radius;
    assert(area >= 1) by (nonlinear_arith)
        requires
            area == w * h,
            w >= 2,
            h >= 2,
    ;
    assert(arc_scale(w, h) == m);
    if r > ((m + 1 + t) * area) * ((m + 1 + t) * area) || (m > 1 + t && r < ((m - 1 - t) * area) * ((
    m - 1 - t) * area)) {
        lemma_off_the_arc(radius, area, m, t, 255);
    }
    if m >= t && ((m + 1 - t) * area) * ((m + 1 - t) * area) <= r && r <= ((m + t - 1) * area) * ((m
        + t - 1) * area) {
        let p = slack(t, 255);
        let k = 255 * m;
        assert(k * k * radius == 65025 * (m * m * radius)) by (nonlinear_arith)
            requires
                k == 255 * m,
        ;
        lemma_scaled_square(m + t - 1, area);
        lemma_scaled_square(m + 1 - t, area);
        let far = 255 * (m + t - 1) * area;
        let near = 255 * (m + 1 - t) * area;
        assert(0 <= far <= (k + p) * area) by (nonlinear_arith)
            requires
                0 <= 255 * (m + t - 1) <= k + p,
                area >= 1,
                far == 255 * (m + t - 1) * area,
        ;
        lemma_squares(far, (k + p) * area);
        if (k - p) * area > 0 {
            assert((k - p) * area <= near) by (nonlinear_arith)
                requires
                    k - p <= 255 * (m + 1 - t),
                    area >= 1,
                    near == 255 * (m + 1 - t) * area,
            ;
            lemma_squares((k - p) * area, near);
        }
        assert(arc_reaches(radius, area, m, t, 255));
    }
}

/// A diagonal is as thick as a light line: a pixel as near to it as half of that,
/// less half a pixel, is inked in full.
pub proof fn law_diagonals_are_as_thick_as_lines(shape: Shape, w: int, h: int, x: int, y: int)
    ensures
        ({
            let d = diagonal_distance(shape, x, y, w, h);
            let t = light(h);
            d * d <= (t - 1) * (t - 1) * (w * w + h * h) ==> diagonal_pixel(shape, w, h, x, y)
                == 255
        }),
{
    let d = diagonal_distance(shape, x, y, w, h);
    let t = light(h);
    let den = w * w + h * h;
    if d * d <= (t - 1) * (t - 1) * den {
        let p = slack(t, 255);
        let s = t - 1;
        assert(den >= 0) by (nonlinear_arith)
            requires
                den == w * w + h * h,
        ;
        lemma_squares(255 * s, p);
        assert((255 * s) * (255 * s) * den <= p * p * den) by (nonlinear_arith)
            requires
                (255 * s) * (255 * s) <= p * p,
                den >= 0,
        ;
        assert((255 * s) * (255 * s) * den == 255 * 255 * (s * s * den)) by (nonlinear_arith);
        assert(255 * 255 * (d * d) <= 255 * 255 * (s * s * den)) by (nonlinear_arith)
            requires
                d * d <= s * s * den,
        ;
        assert(line_reaches(d * d, den, t, 255));
    }
}

} // verus!
