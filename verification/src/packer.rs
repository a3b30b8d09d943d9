//! Shelf packing for the glyph atlas.
//!
//! Almost every glyph is one cell high, so rows of glyphs ("shelves") waste
//! little and a placement is one pass over a handful of shelves.

use vstd::prelude::*;

verus! {

/// Where a glyph ended up in a page.
#[derive(Debug, Clone, Copy, PartialEq, Eq, Structural)]
pub struct Rect {
    pub x: u16,
    pub y: u16,
    pub width: u16,
    pub height: u16,
}

/// Whether two rectangles share a pixel.
pub open spec fn overlap(a: Rect, b: Rect) -> bool {
    &&& a.x < b.x + b.width
    &&& b.x < a.x + a.width
    &&& a.y < b.y + b.height
    &&& b.y < a.y + a.height
}

/// Whether two rectangles come closer to each other than the padding: they share
/// a pixel once each is grown by it to the right and below.
pub open spec fn crowd(a: Rect, b: Rect) -> bool {
    &&& a.x < b.x + b.width + PADDING
    &&& b.x < a.x + a.width + PADDING
    &&& a.y < b.y + b.height + PADDING
    &&& b.y < a.y + a.height + PADDING
}

impl Rect {
    pub fn area(&self) -> (n: u32)
        ensures
            n == self.width * self.height,
    {
        proof {
            lemma_product_bound(self.width as int, self.height as int, 65535, 65535);
        }
        self.width as u32 * self.height as u32
    }

    pub fn intersects(&self, other: &Rect) -> (yes: bool)
        requires
            self.x + self.width <= u16::MAX,
            self.y + self.height <= u16::MAX,
            other.x + other.width <= u16::MAX,
            other.y + other.height <= u16::MAX,
        ensures
            yes == overlap(*self, *other),
    {
        self.x < other.x + other.width && other.x < self.x + self.width && self.y < other.y
            + other.height && other.y < self.y + self.height
    }
}

/// One row of glyphs.
#[derive(Debug, Clone, Copy, PartialEq, Eq, Structural)]
pub struct Shelf {
    pub y: u16,
    pub height: u16,
    /// Next free x on this shelf.
    pub cursor: u16,
}

/// Blank pixels to the right of and below each glyph, so that sampling at a
/// glyph's edge cannot pick up its neighbour.
pub const PADDING: u16 = 1;

/// One texture page's worth of free space.
pub struct ShelfPacker {
    width: u16,
    height: u16,
    shelves: Vec<Shelf>,
    /// Top of the unshelved region.
    next_y: u16,
    used_area: u32,
    placed: Ghost<Seq<Rect>>,
}

/// A page's layout, with every rectangle handed out since it was last empty.
pub struct PackerView {
    pub width: u16,
    pub height: u16,
    pub shelves: Seq<Shelf>,
    pub next_y: u16,
    pub used_area: u32,
    pub placed: Seq<Rect>,
}

impl View for ShelfPacker {
    type V = PackerView;

    closed spec fn view(&self) -> PackerView {
        PackerView {
            width: self.width,
            height: self.height,
            shelves: self.shelves@,
            next_y: self.next_y,
            used_area: self.used_area,
            placed: self.placed@,
        }
    }
}

/// The area under the cursors of all shelves, padding included.
pub open spec fn shelf_area(shelves: Seq<Shelf>) -> int
    decreases shelves.len(),
{
    if shelves.len() == 0 {
        0
    } else {
        shelf_area(shelves.drop_last()) + shelves.last().cursor * shelves.last().height
    }
}

/// Whether a rectangle lies on a shelf, left of its cursor, padding included.
pub open spec fn lies_on(r: Rect, s: Shelf) -> bool {
    &&& r.y == s.y
    &&& r.height + PADDING <= s.height
    &&& r.x + r.width + PADDING <= s.cursor
}

/// Shelves are stacked from the top without overlapping.
pub open spec fn stacked(p: PackerView) -> bool {
    &&& p.next_y <= p.height
    &&& forall|i: int|
        0 <= i < p.shelves.len() ==> {
            &&& (#[trigger] p.shelves[i]).cursor <= p.width
            &&& p.shelves[i].y + p.shelves[i].height <= p.next_y
        }
    &&& forall|i: int, j: int|
        0 <= i < j < p.shelves.len() ==> (#[trigger] p.shelves[i]).y + p.shelves[i].height <= (
        #[trigger] p.shelves[j]).y
}

/// Every rectangle handed out lies on some shelf.
pub open spec fn shelved(p: PackerView) -> bool {
    forall|k: int|
        0 <= k < p.placed.len() ==> exists|i: int|
            0 <= i < p.shelves.len() && lies_on(#[trigger] p.placed[k], #[trigger] p.shelves[i])
}

/// A page is packed: its rectangles lie inside it, padding included, and no two
/// come closer than the padding.
pub open spec fn packed(p: PackerView) -> bool {
    &&& forall|k: int|
        0 <= k < p.placed.len() ==> (#[trigger] p.placed[k]).x + p.placed[k].width + PADDING
            <= p.width && p.placed[k].y + p.placed[k].height + PADDING <= p.height
    &&& forall|j: int, k: int|
        0 <= j < p.placed.len() && 0 <= k < p.placed.len() && j != k ==> !crowd(
            #[trigger] p.placed[j],
            #[trigger] p.placed[k],
        )
}

/// What holds of every page between calls.
pub open spec fn page_ok(p: PackerView) -> bool {
    &&& stacked(p)
    &&& shelved(p)
    &&& packed(p)
    &&& p.used_area == shelf_area(p.shelves)
    &&& p.used_area <= p.width * p.height
    &&& shelf_area(p.shelves) <= p.width * p.next_y
}

/// Whether a glyph of that padded size fits on a shelf.
pub open spec fn fits(s: Shelf, padded_w: int, padded_h: int, page_width: int) -> bool {
    s.height >= padded_h && s.cursor + padded_w <= page_width
}

/// Among the first `n` shelves, the lowest one that fits; the earliest of those
/// where several are equally low.
pub open spec fn best_shelf(
    shelves: Seq<Shelf>,
    n: int,
    padded_w: int,
    padded_h: int,
    page_width: int,
) -> Option<int>
    decreases n,
{
    if n <= 0 {
        None
    } else {
        let s = shelves[n - 1];
        match best_shelf(shelves, n - 1, padded_w, padded_h, page_width) {
            None => if fits(s, padded_w, padded_h, page_width) {
                Some(n - 1)
            } else {
                None
            },
            Some(k) => if fits(s, padded_w, padded_h, page_width) && s.height < shelves[k].height {
                Some(n - 1)
            } else {
                Some(k)
            },
        }
    }
}

/// How a glyph is placed.
pub enum Placement {
    /// It has no pixels, so it takes no room.
    Empty,
    /// The page has no room for it.
    Refused,
    /// It goes at the cursor of an existing shelf.
    OnShelf(int),
    /// It opens a shelf.
    NewShelf,
}

/// How a `width × height` glyph is placed. A shelf more than twice as high as
/// the glyph is used only where no new shelf fits.
pub open spec fn placement(p: PackerView, width: u16, height: u16) -> Placement {
    let padded_w = width + PADDING;
    let padded_h = height + PADDING;
    let best = best_shelf(p.shelves, p.shelves.len() as int, padded_w, padded_h, p.width as int);
    let room = p.next_y + padded_h <= p.height;
    if width == 0 || height == 0 {
        Placement::Empty
    } else if padded_w > p.width || padded_h > p.height {
        Placement::Refused
    } else if best matches Some(i) && !(p.shelves[i].height - padded_h > padded_h && room) {
        Placement::OnShelf(best->0)
    } else if room {
        Placement::NewShelf
    } else {
        Placement::Refused
    }
}

/// The rectangle that a placement hands out.
pub open spec fn placed_rect(p: PackerView, width: u16, height: u16) -> Option<Rect> {
    match placement(p, width, height) {
        Placement::Empty => Some(Rect { x: 0, y: 0, width: 0, height: 0 }),
        Placement::Refused => None,
        Placement::OnShelf(i) => Some(
            Rect { x: p.shelves[i].cursor, y: p.shelves[i].y, width, height },
        ),
        Placement::NewShelf => Some(Rect { x: 0, y: p.next_y, width, height }),
    }
}

/// The page after a placement.
pub open spec fn after_placement(p: PackerView, width: u16, height: u16) -> PackerView {
    let padded_w = width + PADDING;
    let padded_h = height + PADDING;
    match placement(p, width, height) {
        Placement::Empty => p,
        Placement::Refused => p,
        Placement::OnShelf(i) => PackerView {
            shelves: p.shelves.update(
                i,
                Shelf { cursor: (p.shelves[i].cursor + padded_w) as u16, ..p.shelves[i] },
            ),
            used_area: (p.used_area + padded_w * p.shelves[i].height) as u32,
            placed: p.placed.push(placed_rect(p, width, height)->0),
            ..p
        },
        Placement::NewShelf => PackerView {
            shelves: p.shelves.push(
                Shelf { y: p.next_y, height: padded_h as u16, cursor: padded_w as u16 },
            ),
            next_y: (p.next_y + padded_h) as u16,
            used_area: (p.used_area + padded_w * padded_h) as u32,
            placed: p.placed.push(placed_rect(p, width, height)->0),
            ..p
        },
    }
}

proof fn lemma_product_bound(a: int, b: int, a_max: int, b_max: int)
    requires
        0 <= a <= a_max,
        0 <= b <= b_max,
    ensures
        0 <= a * b <= a_max * b_max,
{
    assert(0 <= a * b <= a_max * b_max) by (nonlinear_arith)
        requires
            0 <= a <= a_max,
            0 <= b <= b_max,
    ;
}

/// The best shelf, if there is one, fits.
proof fn lemma_best_fits(shelves: Seq<Shelf>, n: int, pw: int, ph: int, width: int)
    requires
        0 <= n <= shelves.len(),
    ensures
        best_shelf(shelves, n, pw, ph, width) matches Some(i) ==> 0 <= i < n && fits(
            shelves[i],
            pw,
            ph,
            width,
        ),
    decreases n,
{
    if n > 0 {
        lemma_best_fits(shelves, n - 1, pw, ph, width);
    }
}

/// Moving one shelf's cursor changes the area by that shelf's height for every
/// pixel moved.
proof fn lemma_area_update(shelves: Seq<Shelf>, i: int, s: Shelf)
    requires
        0 <= i < shelves.len(),
        s.height == shelves[i].height,
    ensures
        shelf_area(shelves.update(i, s)) == shelf_area(shelves) + (s.cursor - shelves[i].cursor)
            * s.height,
    decreases shelves.len(),
{
    let t = shelves.update(i, s);
    if i == shelves.len() - 1 {
        assert(t.drop_last() =~= shelves.drop_last());
        assert(s.cursor * s.height - shelves[i].cursor * s.height == (s.cursor - shelves[i].cursor)
            * s.height) by (nonlinear_arith);
    } else {
        lemma_area_update(shelves.drop_last(), i, s);
        assert(t.drop_last() =~= shelves.drop_last().update(i, s));
    }
}

/// Stacked shelves no wider than the page cover at most the page above the
/// first free row.
proof fn lemma_area_bound(shelves: Seq<Shelf>, width: int, next_y: int)
    requires
        forall|i: int|
            0 <= i < shelves.len() ==> (#[trigger] shelves[i]).cursor <= width && shelves[i].y
                + shelves[i].height <= next_y,
        forall|i: int, j: int|
            0 <= i < j < shelves.len() ==> (#[trigger] shelves[i]).y + shelves[i].height <= (
            #[trigger] shelves[j]).y,
        0 <= width,
        0 <= next_y,
    ensures
        0 <= shelf_area(shelves) <= width * next_y,
    decreases shelves.len(),
{
    if shelves.len() == 0 {
        lemma_product_bound(width, next_y, width, next_y);
    } else {
        let rest = shelves.drop_last();
        let last = shelves.last();
        assert forall|i: int| 0 <= i < rest.len() implies (#[trigger] rest[i]).cursor <= width
            && rest[i].y + rest[i].height <= last.y by {
            assert(rest[i] == shelves[i]);
            assert(shelves[shelves.len() - 1] == last);
        }
        assert forall|i: int, j: int| 0 <= i < j < rest.len() implies (#[trigger] rest[i]).y
            + rest[i].height <= (#[trigger] rest[j]).y by {
            assert(rest[i] == shelves[i] && rest[j] == shelves[j]);
        }
        lemma_area_bound(rest, width, last.y as int);
        assert(shelves[shelves.len() - 1] == last);
        assert(0 <= last.cursor * last.height <= width * last.height) by (nonlinear_arith)
            requires
                0 <= last.cursor <= width,
                0 <= last.height,
        ;
        assert(width * last.y + width * last.height <= width * next_y) by (nonlinear_arith)
            requires
                0 <= width,
                last.y + last.height <= next_y,
        ;
    }
}

/// The rectangles of a page share no pixel, not even once each is grown by the
/// padding, and none leaves the page with its padding.
pub proof fn law_padding_keeps_glyphs_apart(p: PackerView, j: int, k: int)
    requires
        page_ok(p),
        0 <= j < p.placed.len(),
        0 <= k < p.placed.len(),
    ensures
        p.placed[j].x + p.placed[j].width + PADDING <= p.width,
        p.placed[j].y + p.placed[j].height + PADDING <= p.height,
        j != k ==> !crowd(p.placed[j], p.placed[k]) && !overlap(p.placed[j], p.placed[k]),
{
}

/// A placement keeps everything that holds of a page: in particular no two
/// rectangles ever come closer than the padding and none leaves the page. What
/// is handed out has the size that was asked for.
pub proof fn law_placements_stay_disjoint(p: PackerView, width: u16, height: u16)
    requires
        page_ok(p),
    ensures
        page_ok(after_placement(p, width, height)),
        width > 0 && height > 0 && placed_rect(p, width, height) is Some ==> {
            let r = placed_rect(p, width, height)->0;
            &&& r.width == width && r.height == height
            &&& after_placement(p, width, height).placed == p.placed.push(r)
        },
        ({
            let i = placement(p, width, height);
            &&& i matches Placement::OnShelf(k) ==> 0 <= k < p.shelves.len()
                && p.shelves[k].cursor + width + PADDING <= p.width && p.used_area + (width + PADDING)
                * p.shelves[k].height <= p.width * p.height
            &&& i is NewShelf ==> p.used_area + (width + PADDING) * (height + PADDING) <= p.width
                * p.height
        }),
{
    let pw = width + PADDING;
    let ph = height + PADDING;
    lemma_best_fits(p.shelves, p.shelves.len() as int, pw, ph, p.width as int);
    lemma_product_bound(p.width as int, p.height as int, 65535, 65535);
    let q = after_placement(p, width, height);
    match placement(p, width, height) {
        Placement::Empty => {},
        Placement::Refused => {},
        Placement::OnShelf(i) => {
            let moved = Shelf { cursor: (p.shelves[i].cursor + pw) as u16, ..p.shelves[i] };
            let r = placed_rect(p, width, height)->0;
            lemma_area_update(p.shelves, i, moved);
            lemma_area_bound(q.shelves, p.width as int, p.next_y as int);
            lemma_product_bound(p.width as int, p.next_y as int, p.width as int, p.height as int);
            assert(lies_on(r, moved));
            assert(q.shelves[i] == moved);
            assert forall|k: int| 0 <= k < q.placed.len() implies exists|j: int|
                0 <= j < q.shelves.len() && lies_on(#[trigger] q.placed[k], #[trigger] q.shelves[j]) by {
                if k < p.placed.len() {
                    let j = choose|j: int|
                        0 <= j < p.shelves.len() && lies_on(p.placed[k], p.shelves[j]);
                    assert(q.placed[k] == p.placed[k]);
                    assert(lies_on(q.placed[k], q.shelves[j]));
                } else {
                    assert(lies_on(q.placed[k], q.shelves[i]));
                }
            }
            assert forall|k: int| 0 <= k < p.placed.len() implies !crowd(p.placed[k], r)
                && !crowd(r, p.placed[k]) by {
                let j = choose|j: int|
                    0 <= j < p.shelves.len() && lies_on(#[trigger] p.placed[k], p.shelves[j]);
                if j < i {
                    assert(p.shelves[j].y + p.shelves[j].height <= p.shelves[i].y);
                } else if j > i {
                    assert(p.shelves[i].y + p.shelves[i].height <= p.shelves[j].y);
                }
            }
        },
        Placement::NewShelf => {
            let opened = Shelf { y: p.next_y, height: ph as u16, cursor: pw as u16 };
            let r = placed_rect(p, width, height)->0;
            assert(q.shelves.drop_last() =~= p.shelves);
            lemma_area_bound(q.shelves, p.width as int, q.next_y as int);
            lemma_product_bound(p.width as int, q.next_y as int, p.width as int, p.height as int);
            assert(lies_on(r, opened));
            assert(q.shelves[p.shelves.len() as int] == opened);
            assert forall|k: int| 0 <= k < q.placed.len() implies exists|j: int|
                0 <= j < q.shelves.len() && lies_on(#[trigger] q.placed[k], #[trigger] q.shelves[j]) by {
                if k < p.placed.len() {
                    let j = choose|j: int|
                        0 <= j < p.shelves.len() && lies_on(p.placed[k], p.shelves[j]);
                    assert(q.placed[k] == p.placed[k]);
                    assert(q.shelves[j] == p.shelves[j]);
                    assert(lies_on(q.placed[k], q.shelves[j]));
                } else {
                    assert(lies_on(q.placed[k], q.shelves[p.shelves.len() as int]));
                }
            }
            assert forall|k: int| 0 <= k < p.placed.len() implies !crowd(p.placed[k], r)
                && !crowd(r, p.placed[k]) by {
                let j = choose|j: int|
                    0 <= j < p.shelves.len() && lies_on(#[trigger] p.placed[k], p.shelves[j]);
                assert(p.shelves[j].y + p.shelves[j].height <= p.next_y);
            }
        },
    }
}

impl ShelfPacker {
    pub open spec fn wf(self) -> bool {
        page_ok(self@)
    }

    pub fn new(width: u16, height: u16) -> (p: ShelfPacker)
        ensures
            p.wf(),
            p@ == (PackerView {
                width,
                height,
                shelves: Seq::empty(),
                next_y: 0,
                used_area: 0,
                placed: Seq::empty(),
            }),
    {
        proof {
            lemma_product_bound(width as int, height as int, 65535, 65535);
        }
        let p = ShelfPacker {
            width,
            height,
            shelves: Vec::new(),
            next_y: 0,
            used_area: 0,
            placed: Ghost(Seq::empty()),
        };
        assert(p@.shelves =~= Seq::empty());
        p
    }

    pub fn dimensions(&self) -> (d: (u16, u16))
        ensures
            d == (self@.width, self@.height),
    {
        (self.width, self.height)
    }

    /// The part of the page consumed, padding included, as an area out of the
    /// whole area.
    pub fn occupancy(&self) -> (part: (u32, u32))
        ensures
            part.0 == self@.used_area,
            part.1 == self@.width * self@.height,
    {
        proof {
            lemma_product_bound(self.width as int, self.height as int, 65535, 65535);
        }
        (self.used_area, self.width as u32 * self.height as u32)
    }

    /// Finds room for a `width × height` glyph, or `None` when the page is
    /// full.
    pub fn allocate(&mut self, width: u16, height: u16) -> (rect: Option<Rect>)
        requires
            old(self).wf(),
        ensures
            final(self).wf(),
            rect == placed_rect(old(self)@, width, height),
            final(self)@ == after_placement(old(self)@, width, height),
    {
        proof {
            law_placements_stay_disjoint(self@, width, height);
            lemma_product_bound(self.width as int, self.height as int, 65535, 65535);
        }
        if width == 0 || height == 0 {
            return Some(Rect { x: 0, y: 0, width: 0, height: 0 });
        }
        if width >= self.width || height >= self.height {
            return None;
        }
        let padded_w: u16 = width + PADDING;
        let padded_h: u16 = height + PADDING;
        let mut best: Option<usize> = None;
        let mut i: usize = 0;
        while i < self.shelves.len()
            invariant
                i <= self.shelves@.len(),
                *self == *old(self),
                match best {
                    Some(k) => k < i && best_shelf(
                        self.shelves@,
                        i as int,
                        padded_w as int,
                        padded_h as int,
                        self.width as int,
                    ) == Some(k as int),
                    None => best_shelf(
                        self.shelves@,
                        i as int,
                        padded_w as int,
                        padded_h as int,
                        self.width as int,
                    ) is None,
                },
            decreases self.shelves@.len() - i,
        {
            let s: Shelf = self.shelves[i];
            if s.height >= padded_h && s.cursor as u32 + padded_w as u32 <= self.width as u32 {
                let better = match best {
                    None => true,
                    Some(k) => s.height < self.shelves[k].height,
                };
                if better {
                    best = Some(i);
                }
            }
            i += 1;
        }
        let room = self.next_y as u32 + padded_h as u32 <= self.height as u32;
        proof {
            lemma_best_fits(
                self.shelves@,
                self.shelves@.len() as int,
                padded_w as int,
                padded_h as int,
                self.width as int,
            );
        }
        if let Some(k) = best {
            let s: Shelf = self.shelves[k];
            let wasteful = s.height - padded_h > padded_h;
            if !(wasteful && room) {
                let rect = Rect { x: s.cursor, y: s.y, width, height };
                let ghost before = self@;
                proof {
                    lemma_product_bound(padded_w as int, s.height as int, 65535, 65535);
                }
                self.used_area = self.used_area + padded_w as u32 * s.height as u32;
                self.shelves.set(
                    k,
                    Shelf { y: s.y, height: s.height, cursor: s.cursor + padded_w },
                );
                self.placed = Ghost(before.placed.push(rect));
                return Some(rect);
            }
        }
        if !room {
            return None;
        }
        let rect = Rect { x: 0, y: self.next_y, width, height };
        let ghost before = self@;
        proof {
            lemma_product_bound(padded_w as int, padded_h as int, 65535, 65535);
        }
        self.used_area = self.used_area + padded_w as u32 * padded_h as u32;
        self.shelves.push(Shelf { y: self.next_y, height: padded_h, cursor: padded_w });
        self.next_y = self.next_y + padded_h;
        self.placed = Ghost(before.placed.push(rect));
        Some(rect)
    }

    /// Drops every allocation.
    pub fn reset(&mut self)
        ensures
            final(self).wf(),
            final(self)@ == (PackerView {
                shelves: Seq::empty(),
                next_y: 0,
                used_area: 0,
                placed: Seq::empty(),
                ..old(self)@
            }),
    {
        proof {
            lemma_product_bound(self.width as int, self.height as int, 65535, 65535);
        }
        self.shelves.clear();
        self.next_y = 0;
        self.used_area = 0;
        self.placed = Ghost(Seq::empty());
    }
}

/// Two rectangles with pixels intersect exactly where some pixel is in both.
pub proof fn law_intersections_share_a_pixel(a: Rect, b: Rect, yes: bool, x: int, y: int)
    requires
        a.width > 0 && a.height > 0 && b.width > 0 && b.height > 0,
        call_ensures(Rect::intersects, (&a, &b), yes),
    ensures
        a.x <= x < a.x + a.width && b.x <= x < b.x + b.width && a.y <= y < a.y + a.height && b.y
            <= y < b.y + b.height ==> yes,
        yes ==> exists|u: u16, v: u16|
            a.x <= u < a.x + a.width && b.x <= u < b.x + b.width && a.y <= v < a.y + a.height
                && b.y <= v < b.y + b.height && #[trigger] at_pixel(u, v),
{
    let u = if a.x >= b.x {
        a.x
    } else {
        b.x
    };
    let v = if a.y >= b.y {
        a.y
    } else {
        b.y
    };
    assert(at_pixel(u, v));
}

/// Whether a pixel has these coordinates, as any pixel may.
pub open spec fn at_pixel(x: u16, y: u16) -> bool {
    x >= 0 && y >= 0
}

proof fn lemma_best_is_lowest(shelves: Seq<Shelf>, n: int, pw: int, ph: int, width: int, j: int)
    requires
        0 <= j < n <= shelves.len(),
        shelves[j].height >= ph,
        shelves[j].cursor + pw <= width,
    ensures
        best_shelf(shelves, n, pw, ph, width) matches Some(i) && 0 <= i < n && shelves[i].height
            <= shelves[j].height && (shelves[i].height == shelves[j].height ==> i <= j),
    decreases n,
{
    lemma_best_fits(shelves, n, pw, ph, width);
    if j < n - 1 {
        lemma_best_is_lowest(shelves, n - 1, pw, ph, width, j);
    } else {
        lemma_best_fits(shelves, n - 1, pw, ph, width);
    }
}

/// A glyph that fits on a shelf, with a pixel to spare to its right and below,
/// is placed. Where it goes on a shelf, no shelf that it fits on is lower, and
/// none as low comes earlier.
pub proof fn law_the_tightest_shelf_is_used(p: PackerView, width: u16, height: u16, j: int)
    requires
        page_ok(p),
        0 < width < p.width,
        0 < height < p.height,
        0 <= j < p.shelves.len(),
        height + 1 <= p.shelves[j].height,
        p.shelves[j].cursor + width + 1 <= p.width,
    ensures
        placed_rect(p, width, height) is Some,
        placement(p, width, height) matches Placement::OnShelf(i) ==> p.shelves[i].height
            <= p.shelves[j].height && (p.shelves[i].height == p.shelves[j].height ==> i <= j),
        p.shelves[j].height <= 2 * (height + 1) ==> placement(p, width, height) is OnShelf,
{
    lemma_best_is_lowest(
        p.shelves,
        p.shelves.len() as int,
        width + 1,
        height + 1,
        p.width as int,
        j,
    );
}

/// A glyph with pixels is refused exactly where it fits on no shelf and there is
/// no room for another.
pub proof fn law_a_full_page_refuses(p: PackerView, width: u16, height: u16)
    requires
        page_ok(p),
        width > 0,
        height > 0,
    ensures
        placed_rect(p, width, height) is None <==> width >= p.width || height >= p.height || (
        p.next_y + height + 1 > p.height && forall|j: int|
            0 <= j < p.shelves.len() ==> (#[trigger] p.shelves[j]).height < height + 1
                || p.shelves[j].cursor + width + 1 > p.width),
{
    lemma_best_fits(
        p.shelves,
        p.shelves.len() as int,
        width + 1,
        height + 1,
        p.width as int,
    );
    if width < p.width && height < p.height && p.next_y + height + 1 > p.height {
        if exists|j: int|
            0 <= j < p.shelves.len() && (#[trigger] p.shelves[j]).height >= height + 1
                && p.shelves[j].cursor + width + 1 <= p.width {
            let j = choose|j: int|
                0 <= j < p.shelves.len() && (#[trigger] p.shelves[j]).height >= height + 1
                    && p.shelves[j].cursor + width + 1 <= p.width;
            law_the_tightest_shelf_is_used(p, width, height, j);
        }
    }
}

/// What is placed has the size that was asked for, lies in the page, and is at
/// least a pixel away from all that was placed before. A shelf more than twice
/// as high as needed is used only where no new one fits.
pub proof fn law_placements_keep_their_distance(p: PackerView, width: u16, height: u16, k: int)
    requires
        page_ok(p),
        width > 0,
        height > 0,
        0 <= k < p.placed.len(),
        placed_rect(p, width, height) is Some,
    ensures
        ({
            let r = placed_rect(p, width, height)->0;
            let q = p.placed[k];
            &&& r.width == width && r.height == height
            &&& r.x + width < p.width && r.y + height < p.height
            &&& r.x + width < q.x || q.x + q.width < r.x || r.y + height < q.y || q.y + q.height
                < r.y
        }),
        placement(p, width, height) matches Placement::OnShelf(i) ==> p.shelves[i].height <= 2 * (
        height + 1) || p.next_y + height + 1 > p.height,
{
    law_placements_stay_disjoint(p, width, height);
    let after = after_placement(p, width, height);
    let n = p.placed.len() as int;
    assert(after.placed[n] == placed_rect(p, width, height)->0);
    assert(after.placed[k] == p.placed[k]);
    assert(!crowd(after.placed[n], after.placed[k]));
}

/// A glyph without pixels is placed anywhere and takes no room.
pub proof fn law_nothing_takes_no_room(p: PackerView, width: u16, height: u16)
    requires
        width == 0 || height == 0,
    ensures
        placed_rect(p, width, height) is Some,
        placed_rect(p, width, height)->0.width == 0,
        placed_rect(p, width, height)->0.height == 0,
        after_placement(p, width, height) == p,
{
}

/// A placement consumes its width, and a pixel more, on the whole height of its
/// shelf.
pub proof fn law_consumption_is_counted(p: PackerView, width: u16, height: u16)
    requires
        page_ok(p),
        width > 0,
        height > 0,
    ensures
        ({
            let q = after_placement(p, width, height);
            &&& placement(p, width, height) matches Placement::OnShelf(i) ==> q.used_area
                == p.used_area + (width + 1) * p.shelves[i].height && q.next_y == p.next_y
                && q.shelves[i].cursor == p.shelves[i].cursor + width + 1
            &&& placement(p, width, height) is NewShelf ==> q.used_area == p.used_area + (width + 1)
                * (height + 1) && q.next_y == p.next_y + height + 1
            &&& placement(p, width, height) is Refused ==> q == p
        }),
{
    law_placements_stay_disjoint(p, width, height);
    lemma_product_bound(p.width as int, p.height as int, 65535, 65535);
    lemma_best_fits(
        p.shelves,
        p.shelves.len() as int,
        width + 1,
        height + 1,
        p.width as int,
    );
    match placement(p, width, height) {
        Placement::OnShelf(i) => {
            lemma_product_bound(width + 1, p.shelves[i].height as int, width + 1, 65535);
        },
        _ => {
            lemma_product_bound(width + 1, height + 1, width + 1, height + 1);
        },
    }
}

} // verus!
