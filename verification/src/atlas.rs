//! The resident glyph atlas.
//!
//! A terminal's glyph repertoire is bounded by what its text contains, so after
//! the first screenful streaming a log rasterises nothing at all.
//!
//! The atlas owns no texture. It owns pages, each a packer and a pixel format,
//! and a queue of [`Upload`]s for whoever does. Whole pages are evicted, never
//! single rectangles: a shelf packer could not use the hole.

use std::collections::{HashMap, HashSet};
use vstd::prelude::*;

use crate::fontset::{CellMetrics, Style};
use crate::packer::{
    after_placement, crowd, law_placements_stay_disjoint, packed, page_ok, placed_rect, placement,
    PackerView, Rect, ShelfPacker,
};
use crate::raster::{
    bitmap_view, filled, path_of, rasterize_scalar, scalar_result, span_columns, Bitmap, BitmapView,
    PixelFormat,
};

verus! {

broadcast use vstd::std_specs::hash::group_hash_axioms;

/// What a cell wants drawn.
#[derive(Debug, Clone, Copy, PartialEq, Eq, Hash, Structural)]
pub enum GlyphId {
    Scalar(char),
    /// An interned grapheme cluster.
    Cluster(u32),
}

#[derive(Debug, Clone, Copy, PartialEq, Eq, Hash, Structural)]
pub struct GlyphKey {
    pub id: GlyphId,
    pub style: Style,
    /// One or two. A double-width glyph is a different bitmap, not a stretched
    /// one.
    pub columns: u8,
}

/// A number for each key.
pub open spec fn key_code(key: GlyphKey) -> u64 {
    let id: int = match key.id {
        GlyphId::Scalar(c) => c as int,
        GlyphId::Cluster(i) => 0x1_0000_0000 + i,
    };
    let bold: int = if key.style.bold {
        0x2_0000_0000
    } else {
        0
    };
    let italic: int = if key.style.italic {
        0x4_0000_0000
    } else {
        0
    };
    (id + bold + italic + key.columns * 0x8_0000_0000) as u64
}

/// Different keys have different numbers.
pub proof fn law_key_codes_are_distinct(a: GlyphKey, b: GlyphKey)
    ensures
        key_code(a) == key_code(b) <==> a == b,
{
}

impl GlyphKey {
    pub fn scalar(ch: char, style: Style) -> (k: GlyphKey)
        ensures
            k == (GlyphKey { id: GlyphId::Scalar(ch), style, columns: 1 }),
    {
        GlyphKey { id: GlyphId::Scalar(ch), style, columns: 1 }
    }

    pub fn wide(ch: char, style: Style) -> (k: GlyphKey)
        ensures
            k == (GlyphKey { id: GlyphId::Scalar(ch), style, columns: 2 }),
    {
        GlyphKey { id: GlyphId::Scalar(ch), style, columns: 2 }
    }

    pub fn cluster(id: u32, style: Style, columns: u8) -> (k: GlyphKey)
        ensures
            k == (GlyphKey { id: GlyphId::Cluster(id), style, columns }),
    {
        GlyphKey { id: GlyphId::Cluster(id), style, columns }
    }

    fn code(self) -> (n: u64)
        ensures
            n == key_code(self),
    {
        let id: u64 = match self.id {
            GlyphId::Scalar(c) => c as u64,
            GlyphId::Cluster(i) => 0x1_0000_0000 + i as u64,
        };
        let bold: u64 = if self.style.bold {
            0x2_0000_0000
        } else {
            0
        };
        let italic: u64 = if self.style.italic {
            0x4_0000_0000
        } else {
            0
        };
        id + bold + italic + self.columns as u64 * 0x8_0000_0000
    }
}

/// Where a glyph lives, and how to place it.
#[derive(Debug, Clone, Copy, PartialEq, Eq, Structural)]
pub struct GlyphEntry {
    pub page: u16,
    pub rect: Rect,
    pub left: i16,
    pub top: i16,
    pub format: PixelFormat,
}

impl GlyphEntry {
    /// Whether the glyph has no pixels.
    pub open spec fn blank(self) -> bool {
        self.rect.width == 0 || self.rect.height == 0
    }

    pub fn is_blank(&self) -> (yes: bool)
        ensures
            yes == self.blank(),
    {
        self.rect.width == 0 || self.rect.height == 0
    }
}

/// A region of a page that has to be copied into its texture.
#[derive(Debug, Clone, PartialEq, Eq)]
pub struct Upload {
    pub page: u16,
    pub rect: Rect,
    pub format: PixelFormat,
    pub data: Vec<u8>,
}

/// An upload with its pixels as a sequence.
pub struct UploadView {
    pub page: u16,
    pub rect: Rect,
    pub format: PixelFormat,
    pub data: Seq<u8>,
}

impl View for Upload {
    type V = UploadView;

    open spec fn view(&self) -> UploadView {
        UploadView { page: self.page, rect: self.rect, format: self.format, data: self.data@ }
    }
}

/// The views of a run of uploads.
pub open spec fn upload_views(uploads: Seq<Upload>) -> Seq<UploadView> {
    uploads.map_values(|u: Upload| u@)
}

struct Page {
    format: PixelFormat,
    packer: ShelfPacker,
    /// The most recent frame that used anything in this page.
    last_used: u64,
}

/// A page of the atlas.
pub struct PageView {
    pub format: PixelFormat,
    pub packer: PackerView,
    pub last_used: u64,
}

impl Page {
    spec fn view(self) -> PageView {
        PageView { format: self.format, packer: self.packer@, last_used: self.last_used }
    }
}

/// Bumped whenever cached entries become stale.
pub type Generation = u32;

/// The page size that holds more glyphs than a session normally sees.
pub const DEFAULT_PAGE_SIZE: u16 = 1024;

/// A ceiling on texture memory.
pub const MAX_PAGES: usize = 8;

/// The least page size.
pub const MIN_PAGE_SIZE: u16 = 64;

/// The glyph cache and its pages.
pub struct Atlas {
    metrics: CellMetrics,
    page_size: u16,
    pages: Vec<Page>,
    entries: HashMap<u64, GlyphEntry>,
    pending: Vec<Upload>,
    frame: u64,
    generation: Generation,
    /// Glyphs that no page has room for, remembered so that they are not drawn
    /// again every frame.
    rejected: HashSet<u64>,
}

/// What an atlas holds. Glyphs go by their key's number.
pub struct AtlasView {
    pub metrics: CellMetrics,
    pub page_size: u16,
    pub pages: Seq<PageView>,
    pub entries: Map<u64, GlyphEntry>,
    pub pending: Seq<UploadView>,
    pub frame: u64,
    pub generation: u32,
    pub rejected: Set<u64>,
}

impl View for Atlas {
    type V = AtlasView;

    closed spec fn view(&self) -> AtlasView {
        AtlasView {
            metrics: self.metrics,
            page_size: self.page_size,
            pages: page_views(self.pages@),
            entries: self.entries@,
            pending: upload_views(self.pending@),
            frame: self.frame,
            generation: self.generation,
            rejected: self.rejected@,
        }
    }
}

spec fn page_views(pages: Seq<Page>) -> Seq<PageView> {
    pages.map_values(|p: Page| p.view())
}

/// A page without glyphs.
pub open spec fn empty_packer(size: u16) -> PackerView {
    PackerView {
        width: size,
        height: size,
        shelves: Seq::empty(),
        next_y: 0,
        used_area: 0,
        placed: Seq::empty(),
    }
}

/// Whether an entry's rectangle was handed out by its page.
pub open spec fn entry_lives(pages: Seq<PageView>, e: GlyphEntry) -> bool {
    e.blank() || {
        &&& e.page < pages.len()
        &&& pages[e.page as int].format == e.format
        &&& pages[e.page as int].packer.placed.contains(e.rect)
    }
}

/// What holds of every atlas between calls: pages are sound and bounded in
/// number, every cached glyph lies on a page of its own format, and no two
/// cached glyphs come closer than the padding.
pub open spec fn atlas_ok(a: AtlasView) -> bool {
    &&& a.page_size >= MIN_PAGE_SIZE
    &&& a.pages.len() <= MAX_PAGES
    &&& forall|i: int|
        0 <= i < a.pages.len() ==> {
            &&& page_ok((#[trigger] a.pages[i]).packer)
            &&& a.pages[i].packer.width == a.page_size
            &&& a.pages[i].packer.height == a.page_size
        }
    &&& forall|c: u64|
        a.entries.contains_key(c) ==> entry_lives(a.pages, #[trigger] a.entries[c])
    &&& forall|c: u64, d: u64|
        a.entries.contains_key(c) && a.entries.contains_key(d) && c != d && !a.entries[c].blank()
            && !a.entries[d].blank() && a.entries[c].page == a.entries[d].page ==> !crowd(
            (#[trigger] a.entries[c]).rect,
            (#[trigger] a.entries[d]).rect,
        )
}

/// Among the first `n` pages, the first of this format with room.
pub open spec fn page_with_room(
    pages: Seq<PageView>,
    format: PixelFormat,
    width: u16,
    height: u16,
    n: int,
) -> Option<int>
    decreases n,
{
    if n <= 0 {
        None
    } else {
        match page_with_room(pages, format, width, height, n - 1) {
            Some(i) => Some(i),
            None => if pages[n - 1].format == format && placed_rect(
                pages[n - 1].packer,
                width,
                height,
            ) is Some {
                Some(n - 1)
            } else {
                None
            },
        }
    }
}

/// Where a bitmap of that size goes: on the first page of its format with room,
/// else on a new page while there may be one.
pub open spec fn place_for(
    a: AtlasView,
    format: PixelFormat,
    width: u16,
    height: u16,
) -> Option<(int, Rect)> {
    match page_with_room(a.pages, format, width, height, a.pages.len() as int) {
        Some(i) => Some((i, placed_rect(a.pages[i].packer, width, height)->0)),
        None => if a.pages.len() < MAX_PAGES && placed_rect(
            empty_packer(a.page_size),
            width,
            height,
        ) is Some {
            Some(
                (
                    a.pages.len() as int,
                    placed_rect(empty_packer(a.page_size), width, height)->0,
                ),
            )
        } else {
            None
        },
    }
}

/// The pages after that placement.
pub open spec fn pages_after_place(
    a: AtlasView,
    format: PixelFormat,
    width: u16,
    height: u16,
) -> Seq<PageView> {
    match place_for(a, format, width, height) {
        None => a.pages,
        Some((i, _)) => if i < a.pages.len() {
            a.pages.update(
                i,
                PageView {
                    packer: after_placement(a.pages[i].packer, width, height),
                    ..a.pages[i]
                },
            )
        } else {
            a.pages.push(
                PageView {
                    format,
                    packer: after_placement(empty_packer(a.page_size), width, height),
                    last_used: a.frame,
                },
            )
        },
    }
}

/// Among the first `n` pages, the one of this format that was used longest ago;
/// the first of those where several were.
pub open spec fn coldest(pages: Seq<PageView>, format: PixelFormat, n: int) -> Option<int>
    decreases n,
{
    if n <= 0 {
        None
    } else {
        match coldest(pages, format, n - 1) {
            None => if pages[n - 1].format == format {
                Some(n - 1)
            } else {
                None
            },
            Some(i) => if pages[n - 1].format == format && pages[n - 1].last_used
                < pages[i].last_used {
                Some(n - 1)
            } else {
                Some(i)
            },
        }
    }
}

/// The entries that outlive a page.
pub open spec fn entries_without(
    entries: Map<u64, GlyphEntry>,
    page: int,
) -> Map<u64, GlyphEntry> {
    entries.restrict(
        entries.dom().filter(|c: u64| entries[c].page != page || entries[c].blank()),
    )
}

/// The atlas after it emptied its coldest page of a format, where it has one.
pub open spec fn evicted(a: AtlasView, format: PixelFormat) -> AtlasView {
    match coldest(a.pages, format, a.pages.len() as int) {
        None => a,
        Some(i) => AtlasView {
            pages: a.pages.update(
                i,
                PageView {
                    packer: empty_packer(a.page_size),
                    last_used: a.frame,
                    ..a.pages[i]
                },
            ),
            entries: entries_without(a.entries, i),
            rejected: Set::empty(),
            generation: if a.generation == u32::MAX {
                0
            } else {
                (a.generation + 1) as u32
            },
            ..a
        },
    }
}

/// The atlas once a bitmap found its place, and the glyph's entry.
pub open spec fn settled(a: AtlasView, code: u64, b: BitmapView) -> (AtlasView, Option<GlyphEntry>) {
    match place_for(a, b.format, b.width, b.height) {
        None => (AtlasView { rejected: a.rejected.insert(code), ..a }, None),
        Some((i, rect)) => {
            let pages = pages_after_place(a, b.format, b.width, b.height);
            let entry = GlyphEntry {
                page: i as u16,
                rect,
                left: b.left,
                top: b.top,
                format: b.format,
            };
            (
                AtlasView {
                    pages: pages.update(i, PageView { last_used: a.frame, ..pages[i] }),
                    entries: a.entries.insert(code, entry),
                    pending: a.pending.push(
                        UploadView { page: i as u16, rect, format: b.format, data: b.data },
                    ),
                    ..a
                },
                Some(entry),
            )
        },
    }
}

/// The entry of a glyph without pixels.
pub open spec fn blank_entry(format: PixelFormat) -> GlyphEntry {
    GlyphEntry {
        page: 0,
        rect: Rect { x: 0, y: 0, width: 0, height: 0 },
        left: 0,
        top: 0,
        format,
    }
}

/// The atlas after a bitmap was added, and the glyph's entry. A blank glyph
/// takes no room. Where nothing has room the coldest page of the format is
/// dropped once; a glyph that then still does not fit is remembered as
/// rejected.
pub open spec fn inserted(a: AtlasView, code: u64, b: BitmapView) -> (AtlasView, Option<GlyphEntry>) {
    if b.width == 0 || b.height == 0 {
        (
            AtlasView { entries: a.entries.insert(code, blank_entry(b.format)), ..a },
            Some(blank_entry(b.format)),
        )
    } else if place_for(a, b.format, b.width, b.height) is Some {
        settled(a, code, b)
    } else {
        settled(evicted(a, b.format), code, b)
    }
}

/// The atlas after a page was used.
pub open spec fn touched(a: AtlasView, page: int) -> AtlasView {
    if page < a.pages.len() {
        AtlasView {
            pages: a.pages.update(page, PageView { last_used: a.frame, ..a.pages[page] }),
            ..a
        }
    } else {
        a
    }
}

/// Whether `b` is what rasterising this key gives, `draw` being the font.
pub open spec fn drawn_for<F: FnOnce() -> Option<Bitmap>>(
    key: GlyphKey,
    metrics: CellMetrics,
    draw: F,
    b: Option<Bitmap>,
) -> bool {
    match key.id {
        GlyphId::Scalar(ch) => {
            &&& path_of(ch) is Font ==> call_ensures(draw, (), b)
            &&& scalar_result(ch, metrics, key.columns, bitmap_view(b), bitmap_view(b))
        },
        GlyphId::Cluster(_) => call_ensures(draw, (), b),
    }
}

/// What a lookup does: a cached glyph is returned, a rejected one is not drawn
/// again, and only a new one is drawn.
pub open spec fn lookup_result(
    a: AtlasView,
    code: u64,
    drawn: Option<BitmapView>,
) -> (AtlasView, Option<GlyphEntry>) {
    if a.entries.contains_key(code) {
        (touched(a, a.entries[code].page as int), Some(a.entries[code]))
    } else if a.rejected.contains(code) {
        (a, None)
    } else {
        match drawn {
            None => (a, None),
            Some(b) => inserted(a, code, b),
        }
    }
}

/// A glyph that was placed is in the cache from then on: looking it up again
/// gives the same entry, draws nothing and uploads nothing.
pub proof fn law_a_glyph_is_drawn_once(
    a: AtlasView,
    code: u64,
    drawn: Option<BitmapView>,
    again: Option<BitmapView>,
)
    ensures
        ({
            let (first, entry) = lookup_result(a, code, drawn);
            let (second, same) = lookup_result(first, code, again);
            entry is Some ==> same == entry && second.pending == first.pending && second.entries
                == first.entries
        }),
{
}

/// An upload carries exactly its rectangle's pixels.
pub proof fn law_uploads_fill_their_rectangle(a: AtlasView, code: u64, b: BitmapView)
    requires
        filled(b),
        forall|i: int|
            0 <= i < a.pending.len() ==> (#[trigger] a.pending[i]).data.len()
                == a.pending[i].rect.width * a.pending[i].rect.height * a.pending[i].format.size(),
    ensures
        ({
            let after = inserted(a, code, b).0.pending;
            forall|i: int|
                0 <= i < after.len() ==> (#[trigger] after[i]).data.len() == after[i].rect.width
                    * after[i].rect.height * after[i].format.size()
        }),
{
    let after = inserted(a, code, b).0.pending;
    let base = if place_for(a, b.format, b.width, b.height) is Some {
        a
    } else {
        evicted(a, b.format)
    };
    lemma_page_with_room(
        base.pages,
        b.format,
        b.width,
        b.height,
        base.pages.len() as int,
    );
    assert forall|i: int| 0 <= i < after.len() implies (#[trigger] after[i]).data.len()
        == after[i].rect.width * after[i].rect.height * after[i].format.size() by {
        if i < a.pending.len() {
            assert(after[i] == a.pending[i]);
        }
    }
}

/// Whatever is looked up and drawn, the atlas stays sound: pages stay bounded
/// in number, glyphs stay on pages of their own format, and no two cached
/// glyphs come closer than the padding.
pub proof fn law_lookups_keep_the_atlas_sound(a: AtlasView, code: u64, drawn: Option<BitmapView>)
    requires
        atlas_ok(a),
    ensures
        atlas_ok(lookup_result(a, code, drawn).0),
{
    let after = lookup_result(a, code, drawn).0;
    if a.entries.contains_key(code) {
        assert forall|c: u64| after.entries.contains_key(c) implies entry_lives(
            after.pages,
            #[trigger] after.entries[c],
        ) by {
            assert(entry_lives(a.pages, a.entries[c]));
        }
    } else if !a.rejected.contains(code) {
        match drawn {
            None => {},
            Some(b) => {
                if b.width == 0 || b.height == 0 {
                    assert forall|c: u64| after.entries.contains_key(c) implies entry_lives(
                        after.pages,
                        #[trigger] after.entries[c],
                    ) by {
                        if c != code {
                            assert(entry_lives(a.pages, a.entries[c]));
                        }
                    }
                } else if place_for(a, b.format, b.width, b.height) is Some {
                    lemma_settled_ok(a, code, b);
                } else {
                    lemma_evicted_ok(a, b.format);
                    lemma_settled_ok(evicted(a, b.format), code, b);
                }
            },
        }
    }
}

proof fn lemma_page_with_room(
    pages: Seq<PageView>,
    format: PixelFormat,
    width: u16,
    height: u16,
    n: int,
)
    requires
        0 <= n <= pages.len(),
    ensures
        page_with_room(pages, format, width, height, n) matches Some(i) ==> 0 <= i < n
            && pages[i].format == format && placed_rect(pages[i].packer, width, height) is Some,
    decreases n,
{
    if n > 0 {
        lemma_page_with_room(pages, format, width, height, n - 1);
    }
}

proof fn lemma_coldest(pages: Seq<PageView>, format: PixelFormat, n: int)
    requires
        0 <= n <= pages.len(),
    ensures
        coldest(pages, format, n) matches Some(i) ==> 0 <= i < n && pages[i].format == format,
    decreases n,
{
    if n > 0 {
        lemma_coldest(pages, format, n - 1);
    }
}

/// An empty page is sound.
proof fn lemma_empty_page(size: u16)
    ensures
        page_ok(empty_packer(size)),
{
    assert(size * size >= 0 && size * 0 == 0) by (nonlinear_arith);
}

/// Eviction keeps the atlas sound.
proof fn lemma_evicted_ok(a: AtlasView, format: PixelFormat)
    requires
        atlas_ok(a),
    ensures
        atlas_ok(evicted(a, format)),
{
    lemma_coldest(a.pages, format, a.pages.len() as int);
    lemma_empty_page(a.page_size);
    match coldest(a.pages, format, a.pages.len() as int) {
        None => {},
        Some(i) => {
            let b = evicted(a, format);
            assert forall|c: u64| b.entries.contains_key(c) implies entry_lives(
                b.pages,
                #[trigger] b.entries[c],
            ) by {
                assert(a.entries.contains_key(c) && a.entries[c] == b.entries[c]);
                assert(entry_lives(a.pages, a.entries[c]));
            }
            assert forall|c: u64, d: u64|
                b.entries.contains_key(c) && b.entries.contains_key(d) && c != d
                    && !b.entries[c].blank() && !b.entries[d].blank() && b.entries[c].page
                    == b.entries[d].page implies !crowd(
                (#[trigger] b.entries[c]).rect,
                (#[trigger] b.entries[d]).rect,
            ) by {
                assert(a.entries.contains_key(c) && a.entries[c] == b.entries[c]);
                assert(a.entries.contains_key(d) && a.entries[d] == b.entries[d]);
            }
        },
    }
}

/// Settling a bitmap with pixels keeps the atlas sound.
proof fn lemma_settled_ok(a: AtlasView, code: u64, b: BitmapView)
    requires
        atlas_ok(a),
        b.width > 0,
        b.height > 0,
        !a.entries.contains_key(code),
    ensures
        atlas_ok(settled(a, code, b).0),
{
    let s = settled(a, code, b).0;
    lemma_page_with_room(a.pages, b.format, b.width, b.height, a.pages.len() as int);
    lemma_empty_page(a.page_size);
    match place_for(a, b.format, b.width, b.height) {
        None => {},
        Some((i, rect)) => {
            let base = if i < a.pages.len() {
                a.pages[i].packer
            } else {
                empty_packer(a.page_size)
            };
            law_placements_stay_disjoint(base, b.width, b.height);
            let grown = after_placement(base, b.width, b.height);
            assert(s.pages[i].packer == grown);
            assert(grown.placed == base.placed.push(rect));
            assert(grown.placed[base.placed.len() as int] == rect);
            let entry = s.entries[code];
            assert(entry_lives(s.pages, entry)) by {
                assert(s.pages[i].packer.placed.contains(rect));
            }
            assert forall|c: u64| s.entries.contains_key(c) implies entry_lives(
                s.pages,
                #[trigger] s.entries[c],
            ) by {
                if c != code {
                    assert(a.entries.contains_key(c) && a.entries[c] == s.entries[c]);
                    assert(entry_lives(a.pages, a.entries[c]));
                    let e = a.entries[c];
                    if !e.blank() && e.page == i {
                        let k = choose|k: int|
                            0 <= k < base.placed.len() && base.placed[k] == e.rect;
                        assert(grown.placed[k] == e.rect);
                    }
                }
            }
            assert forall|c: u64, d: u64|
                s.entries.contains_key(c) && s.entries.contains_key(d) && c != d
                    && !s.entries[c].blank() && !s.entries[d].blank() && s.entries[c].page
                    == s.entries[d].page implies !crowd(
                (#[trigger] s.entries[c]).rect,
                (#[trigger] s.entries[d]).rect,
            ) by {
                if c != code && d != code {
                    assert(a.entries[c] == s.entries[c] && a.entries[d] == s.entries[d]);
                } else {
                    let other = if c == code {
                        d
                    } else {
                        c
                    };
                    let e = s.entries[other];
                    assert(a.entries.contains_key(other) && a.entries[other] == e);
                    assert(entry_lives(a.pages, e));
                    let k = choose|k: int| 0 <= k < base.placed.len() && base.placed[k] == e.rect;
                    assert(grown.placed[k] == e.rect);
                    assert(packed(grown));
                    assert(grown.placed[base.placed.len() as int] == rect);
                }
            }
        },
    }
}

impl Atlas {
    pub open spec fn wf(self) -> bool {
        atlas_ok(self@) && self.packers_wf()
    }

    /// Every page's packer is sound.
    pub closed spec fn packers_wf(self) -> bool {
        forall|i: int| 0 <= i < self.pages@.len() ==> (#[trigger] self.pages@[i]).packer.wf()
    }

    pub fn new(metrics: CellMetrics) -> (a: Atlas)
        ensures
            a.wf(),
            a@ == fresh_atlas(metrics, DEFAULT_PAGE_SIZE, 0, 0),
    {
        Atlas::with_page_size(metrics, DEFAULT_PAGE_SIZE)
    }

    pub fn with_page_size(metrics: CellMetrics, page_size: u16) -> (a: Atlas)
        ensures
            a.wf(),
            a@ == fresh_atlas(
                metrics,
                if page_size < MIN_PAGE_SIZE {
                    MIN_PAGE_SIZE
                } else {
                    page_size
                },
                0,
                0,
            ),
    {
        let page_size: u16 = if page_size < MIN_PAGE_SIZE {
            MIN_PAGE_SIZE
        } else {
            page_size
        };
        let a = Atlas {
            metrics,
            page_size,
            pages: Vec::new(),
            entries: HashMap::new(),
            pending: Vec::new(),
            frame: 0,
            generation: 0,
            rejected: HashSet::new(),
        };
        assert(a@.pages =~= Seq::empty());
        assert(a@.pending =~= Seq::empty());
        assert(a@.entries =~= Map::empty());
        assert(a@.rejected =~= Set::empty());
        a
    }

    pub fn metrics(&self) -> (m: CellMetrics)
        ensures
            m == self@.metrics,
    {
        self.metrics
    }

    pub fn generation(&self) -> (g: Generation)
        ensures
            g == self@.generation,
    {
        self.generation
    }

    pub fn page_size(&self) -> (n: u16)
        ensures
            n == self@.page_size,
    {
        self.page_size
    }

    pub fn page_count(&self) -> (n: usize)
        ensures
            n == self@.pages.len(),
    {
        self.pages.len()
    }

    pub fn page_format(&self, index: u16) -> (f: Option<PixelFormat>)
        ensures
            f == if index < self@.pages.len() {
                Some(self@.pages[index as int].format)
            } else {
                None
            },
    {
        if (index as usize) < self.pages.len() {
            Some(self.pages[index as usize].format)
        } else {
            None
        }
    }

    /// How many glyphs are cached, the blank ones included.
    pub fn glyph_count(&self) -> (n: usize)
        ensures
            n == self@.entries.len(),
    {
        self.entries.len()
    }

    /// Marks the start of a frame, by which pages are ordered for eviction.
    pub fn begin_frame(&mut self)
        requires
            old(self).wf(),
            old(self)@.frame < u64::MAX,
        ensures
            final(self).wf(),
            final(self)@ == (AtlasView { frame: (old(self)@.frame + 1) as u64, ..old(self)@ }),
    {
        self.frame = self.frame + 1;
    }

    /// Looks a glyph up, drawing it on a miss. `draw` asks the font, and is
    /// called only on a miss, and then only for what the font has to draw.
    pub fn glyph<F: FnOnce() -> Option<Bitmap>>(&mut self, key: GlyphKey, draw: F) -> (entry: Option<
        GlyphEntry,
    >)
        requires
            old(self).wf(),
            old(self)@.metrics.width * span_columns(key.columns) <= u16::MAX,
            call_requires(draw, ()),
        ensures
            final(self).wf(),
            ({
                let a = old(self)@;
                let code = key_code(key);
                if a.entries.contains_key(code) || a.rejected.contains(code) {
                    (final(self)@, entry) == lookup_result(a, code, None)
                } else {
                    exists|b: Option<Bitmap>| #[trigger]
                        drawn_for(key, a.metrics, draw, b) && (final(self)@, entry)
                            == lookup_result(a, code, bitmap_view(b))
                }
            }),
    {
        let code: u64 = key.code();
        let ghost a = self@;
        if let Some(found) = self.entries.get(&code) {
            let entry: GlyphEntry = *found;
            let at: usize = entry.page as usize;
            if at < self.pages.len() {
                self.use_page(at);
            }
            return Some(entry);
        }
        if self.rejected.contains(&code) {
            return None;
        }
        let drawn = match key.id {
            GlyphId::Scalar(ch) => rasterize_scalar(ch, self.metrics, key.columns, draw),
            GlyphId::Cluster(_) => draw(),
        };
        assert(drawn_for(key, a.metrics, draw, drawn));
        match drawn {
            None => None,
            Some(bitmap) => self.insert(code, bitmap),
        }
    }

    /// Marks a page as used in this frame.
    fn use_page(&mut self, at: usize)
        requires
            old(self).wf(),
            at < old(self)@.pages.len(),
        ensures
            final(self).wf(),
            final(self)@ == touched(old(self)@, at as int),
    {
        let ghost a = self@;
        let now: u64 = self.frame;
        let p = &mut self.pages[at];
        p.last_used = now;
        assert(self@.pages =~= touched(a, at as int).pages);
        assert(self.packers_wf()) by {
            assert forall|i: int| 0 <= i < self.pages@.len() implies (
            #[trigger] self.pages@[i]).packer.wf() by {
                assert(old(self).pages@[i].packer.wf());
            }
        }
        assert(atlas_ok(self@)) by {
            assert forall|c: u64| self@.entries.contains_key(c) implies entry_lives(
                self@.pages,
                #[trigger] self@.entries[c],
            ) by {
                assert(entry_lives(a.pages, a.entries[c]));
            }
        }
    }

    /// Adds a drawn glyph to the cache.
    fn insert(&mut self, code: u64, bitmap: Bitmap) -> (entry: Option<GlyphEntry>)
        requires
            old(self).wf(),
            !old(self)@.entries.contains_key(code),
        ensures
            final(self).wf(),
            (final(self)@, entry) == inserted(old(self)@, code, bitmap@),
    {
        let ghost a = self@;
        if bitmap.is_empty() {
            let entry = GlyphEntry {
                page: 0,
                rect: Rect { x: 0, y: 0, width: 0, height: 0 },
                left: 0,
                top: 0,
                format: bitmap.format,
            };
            self.entries.insert(code, entry);
            proof {
                assert(self@.entries =~= a.entries.insert(code, entry));
                assert forall|c: u64| self@.entries.contains_key(c) implies entry_lives(
                    self@.pages,
                    #[trigger] self@.entries[c],
                ) by {
                    if c != code {
                        assert(entry_lives(a.pages, a.entries[c]));
                    }
                }
                assert(atlas_ok(self@));
            }
            return Some(entry);
        }
        match self.place(bitmap.format, bitmap.width, bitmap.height) {
            Some((at, rect)) => self.settle(Ghost(a), code, bitmap, at, rect),
            None => {
                self.evict_coldest_page(bitmap.format);
                let ghost b = self@;
                assert(b == evicted(a, bitmap.format));
                assert(!b.entries.contains_key(code));
                match self.place(bitmap.format, bitmap.width, bitmap.height) {
                    Some((at, rect)) => self.settle(Ghost(b), code, bitmap, at, rect),
                    None => {
                        self.rejected.insert(code);
                        assert(self@.rejected =~= b.rejected.insert(code));
                        None
                    },
                }
            },
        }
    }

    /// Records a glyph that was just placed.
    fn settle(
        &mut self,
        Ghost(a): Ghost<AtlasView>,
        code: u64,
        bitmap: Bitmap,
        at: usize,
        rect: Rect,
    ) -> (entry: Option<GlyphEntry>)
        requires
            atlas_ok(a),
            old(self).packers_wf(),
            !a.entries.contains_key(code),
            bitmap.width > 0,
            bitmap.height > 0,
            place_for(a, bitmap.format, bitmap.width, bitmap.height) == Some((at as int, rect)),
            old(self)@ == (AtlasView {
                pages: pages_after_place(a, bitmap.format, bitmap.width, bitmap.height),
                ..a
            }),
        ensures
            final(self).wf(),
            (final(self)@, entry) == settled(a, code, bitmap@),
    {
        proof {
            lemma_page_with_room(
                a.pages,
                bitmap.format,
                bitmap.width,
                bitmap.height,
                a.pages.len() as int,
            );
            lemma_settled_ok(a, code, bitmap@);
        }
        let ghost placed = self@;
        let now: u64 = self.frame;
        let p = &mut self.pages[at];
        p.last_used = now;
        assert(self@.pages =~= settled(a, code, bitmap@).0.pages);
        let entry = GlyphEntry {
            page: at as u16,
            rect,
            left: bitmap.left,
            top: bitmap.top,
            format: bitmap.format,
        };
        let upload = Upload { page: at as u16, rect, format: bitmap.format, data: bitmap.data };
        self.pending.push(upload);
        assert(self@.pending =~= a.pending.push(upload@));
        self.entries.insert(code, entry);
        assert(self@.entries =~= a.entries.insert(code, entry));
        assert(self.packers_wf()) by {
            assert forall|i: int| 0 <= i < self.pages@.len() implies (
            #[trigger] self.pages@[i]).packer.wf() by {
                assert(old(self).pages@[i].packer.wf());
            }
        }
        Some(entry)
    }

    /// Finds room on a page of the right format, or opens a new page. Greyscale
    /// and colour never share a page.
    fn place(&mut self, format: PixelFormat, width: u16, height: u16) -> (r: Option<(usize, Rect)>)
        requires
            old(self).wf(),
            width > 0,
            height > 0,
        ensures
            final(self).packers_wf(),
            match r {
                Some((at, rect)) => place_for(old(self)@, format, width, height) == Some(
                    (at as int, rect),
                ),
                None => place_for(old(self)@, format, width, height) is None,
            },
            final(self)@ == (AtlasView {
                pages: pages_after_place(old(self)@, format, width, height),
                ..old(self)@
            }),
    {
        let ghost a = self@;
        let n: usize = self.pages.len();
        let mut i: usize = 0;
        while i < n
            invariant
                i <= n == self.pages@.len(),
                width > 0,
                height > 0,
                self.wf(),
                self@ == a,
                a == old(self)@,
                page_with_room(a.pages, format, width, height, i as int) is None,
            decreases n - i,
        {
            let p = &mut self.pages[i];
            let mut placed: Option<Rect> = None;
            if p.format == format {
                placed = p.packer.allocate(width, height);
            }
            proof {
                assert(old(self)@.pages.len() == n);
            }
            match placed {
                Some(rect) => {
                    proof {
                        lemma_first_room(a.pages, format, width, height, i as int);
                    }
                    assert(self@.pages =~= pages_after_place(a, format, width, height));
                    return Some((i, rect));
                },
                None => {
                    assert(self@.pages =~= a.pages);
                },
            }
            i += 1;
        }
        if self.pages.len() >= MAX_PAGES {
            return None;
        }
        let mut packer = ShelfPacker::new(self.page_size, self.page_size);
        match packer.allocate(width, height) {
            None => None,
            Some(rect) => {
                let now: u64 = self.frame;
                self.pages.push(Page { format, packer, last_used: now });
                assert(self@.pages =~= pages_after_place(a, format, width, height));
                Some((n, rect))
            },
        }
    }

    /// Empties the page of this format that was used longest ago.
    fn evict_coldest_page(&mut self, format: PixelFormat)
        requires
            old(self).wf(),
        ensures
            final(self).wf(),
            final(self)@ == evicted(old(self)@, format),
    {
        let ghost a = self@;
        let mut best: Option<usize> = None;
        let mut i: usize = 0;
        while i < self.pages.len()
            invariant
                i <= self.pages@.len(),
                self@ == a,
                *self == *old(self),
                match best {
                    Some(k) => k < i && coldest(a.pages, format, i as int) == Some(k as int),
                    None => coldest(a.pages, format, i as int) is None,
                },
            decreases self.pages@.len() - i,
        {
            assert(a.pages[i as int] == self.pages@[i as int].view());
            if self.pages[i].format == format {
                let colder = match best {
                    None => true,
                    Some(k) => {
                        assert(a.pages[k as int] == self.pages@[k as int].view());
                        self.pages[i].last_used < self.pages[k].last_used
                    },
                };
                if colder {
                    best = Some(i);
                }
            }
            i += 1;
        }
        proof {
            lemma_evicted_ok(a, format);
        }
        match best {
            None => {},
            Some(k) => {
                let now: u64 = self.frame;
                let p = &mut self.pages[k];
                p.packer.reset();
                p.last_used = now;
                assert(self@.pages =~= evicted(a, format).pages);
                let kept = self.entries_outside(k as u16);
                self.entries = kept;
                assert(self@.entries =~= entries_without(a.entries, k as int));
                self.rejected = HashSet::new();
                assert(self@.rejected =~= Set::empty());
                self.generation = if self.generation == u32::MAX {
                    0
                } else {
                    self.generation + 1
                };
                assert(self.packers_wf()) by {
                    assert forall|j: int| 0 <= j < self.pages@.len() implies (
                    #[trigger] self.pages@[j]).packer.wf() by {
                        if j != k {
                            assert(old(self).pages@[j].packer.wf());
                        }
                    }
                }
            },
        }
    }

    /// The cached glyphs that do not lie on a page.
    fn entries_outside(&self, page: u16) -> (kept: HashMap<u64, GlyphEntry>)
        ensures
            kept@ == entries_without(self.entries@, page as int),
    {
        let mut kept: HashMap<u64, GlyphEntry> = HashMap::new();
        let ghost all = self.entries@;
        for (code, entry) in it: self.entries.iter()
            invariant
                all == self.entries@,
                forall|i: int|
                    0 <= i < it.seq().len() ==> all.contains_key(*(#[trigger] it.seq()[i]).0)
                        && all[*it.seq()[i].0] == *it.seq()[i].1,
                forall|c: u64| #[trigger] all.contains_key(c) ==> it.seq().contains((&c, &all[c])),
                forall|c: u64| #[trigger]
                    kept@.contains_key(c) ==> all.contains_key(c) && kept@[c] == all[c] && (all[c].page
                        != page || all[c].blank()),
                forall|i: int|
                    0 <= i < it.index() && (all[*(#[trigger] it.seq()[i]).0].page != page
                        || all[*it.seq()[i].0].blank()) ==> kept@.contains_key(*it.seq()[i].0),
        {
            if entry.page != page || entry.is_blank() {
                kept.insert(*code, *entry);
            }
        }
        proof {
            assert forall|c: u64| kept@.contains_key(c) <==> entries_without(
                all,
                page as int,
            ).contains_key(c) by {
                if all.contains_key(c) && (all[c].page != page || all[c].blank()) {
                    assert(kept@.contains_key(c));
                }
            }
            assert(kept@ =~= entries_without(all, page as int));
        }
        kept
    }

    /// Everything that still has to be copied into textures.
    pub fn take_uploads(&mut self) -> (uploads: Vec<Upload>)
        requires
            old(self).wf(),
        ensures
            final(self).wf(),
            upload_views(uploads@) == old(self)@.pending,
            final(self)@ == (AtlasView { pending: Seq::empty(), ..old(self)@ }),
    {
        let mut uploads: Vec<Upload> = Vec::new();
        core::mem::swap(&mut uploads, &mut self.pending);
        assert(self@.pending =~= Seq::empty());
        uploads
    }

    pub fn has_uploads(&self) -> (yes: bool)
        ensures
            yes == (self@.pending.len() > 0),
    {
        self.pending.len() > 0
    }

    /// Starts over for a new font, size or scale: every cached glyph is wrong.
    pub fn rebuild(&mut self, metrics: CellMetrics)
        requires
            old(self).wf(),
        ensures
            final(self).wf(),
            final(self)@ == fresh_atlas(
                metrics,
                old(self)@.page_size,
                old(self)@.frame,
                if old(self)@.generation == u32::MAX {
                    0
                } else {
                    (old(self)@.generation + 1) as u32
                },
            ),
    {
        self.metrics = metrics;
        self.pages.clear();
        self.entries = HashMap::new();
        self.pending.clear();
        self.rejected = HashSet::new();
        self.generation = if self.generation == u32::MAX {
            0
        } else {
            self.generation + 1
        };
        assert(self@.pages =~= Seq::empty());
        assert(self@.pending =~= Seq::empty());
        assert(self@.entries =~= Map::empty());
        assert(self@.rejected =~= Set::empty());
    }

    /// Total texture bytes that the pages stand for.
    pub fn texture_bytes(&self) -> (n: u64)
        requires
            self.wf(),
        ensures
            n == pages_bytes(self@.pages, self@.page_size),
            n <= MAX_PAGES * (self@.page_size * self@.page_size * 4),
    {
        let size: u64 = self.page_size as u64;
        proof {
            assert(0 <= size * size <= 65535 * 65535) by (nonlinear_arith)
                requires
                    0 <= size <= 65535,
            ;
            assert(0 * (size * size * 4) == 0) by (nonlinear_arith);
        }
        let mut total: u64 = 0;
        let mut i: usize = 0;
        assert(self@.pages.take(0) =~= Seq::empty());
        while i < self.pages.len()
            invariant
                self.wf(),
                i <= self.pages@.len() <= MAX_PAGES,
                size == self@.page_size,
                0 <= size * size <= 65535 * 65535,
                total == pages_bytes(self@.pages.take(i as int), self@.page_size),
                total <= i * (size * size * 4),
            decreases self.pages@.len() - i,
        {
            let ghost sofar = self@.pages.take(i + 1);
            assert(sofar.drop_last() =~= self@.pages.take(i as int));
            assert(sofar.last() == self.pages@[i as int].view());
            proof {
                let k = self.pages@[i as int].format.size();
                assert(size * size * k <= size * size * 4) by (nonlinear_arith)
                    requires
                        0 <= size * size,
                        k <= 4,
                ;
                assert((i + 1) * (size * size * 4) == i * (size * size * 4) + size * size * 4)
                    by (nonlinear_arith);
                assert(i * (size * size * 4) <= 8 * (65535 * 65535 * 4)) by (nonlinear_arith)
                    requires
                        0 <= i <= 8,
                        0 <= size * size <= 65535 * 65535,
                ;
            }
            total = total + size * size * self.pages[i].format.bytes_per_pixel() as u64;
            i += 1;
        }
        assert(self@.pages.take(i as int) =~= self@.pages);
        proof {
            assert(i * (size * size * 4) <= MAX_PAGES * (size * size * 4)) by (nonlinear_arith)
                requires
                    0 <= i <= MAX_PAGES,
                    0 <= size * size,
            ;
        }
        total
    }
}

/// The bytes that pages of that size take.
pub open spec fn pages_bytes(pages: Seq<PageView>, page_size: u16) -> int
    decreases pages.len(),
{
    if pages.len() == 0 {
        0
    } else {
        pages_bytes(pages.drop_last(), page_size) + page_size * page_size
            * pages.last().format.size()
    }
}

/// An atlas without glyphs.
pub open spec fn fresh_atlas(
    metrics: CellMetrics,
    page_size: u16,
    frame: u64,
    generation: u32,
) -> AtlasView {
    AtlasView {
        metrics,
        page_size,
        pages: Seq::empty(),
        entries: Map::empty(),
        pending: Seq::empty(),
        frame,
        generation,
        rejected: Set::empty(),
    }
}

/// The first page with room is the one found by going through them in order.
proof fn lemma_first_room(
    pages: Seq<PageView>,
    format: PixelFormat,
    width: u16,
    height: u16,
    i: int,
)
    requires
        0 <= i < pages.len(),
        page_with_room(pages, format, width, height, i) is None,
        pages[i].format == format,
        placed_rect(pages[i].packer, width, height) is Some,
    ensures
        page_with_room(pages, format, width, height, pages.len() as int) == Some(i),
{
    lemma_room_stays(pages, format, width, height, i + 1, pages.len() as int);
}

proof fn lemma_room_stays(
    pages: Seq<PageView>,
    format: PixelFormat,
    width: u16,
    height: u16,
    m: int,
    n: int,
)
    requires
        0 <= m <= n,
        page_with_room(pages, format, width, height, m) is Some,
    ensures
        page_with_room(pages, format, width, height, n) == page_with_room(
            pages,
            format,
            width,
            height,
            m,
        ),
    decreases n,
{
    if m < n {
        lemma_room_stays(pages, format, width, height, m, n - 1);
    }
}

/// A key says which glyph, in which style, over how many columns.
pub proof fn law_keys_say_what_they_are_asked(
    ch: char,
    id: u32,
    style: Style,
    columns: u8,
    one: GlyphKey,
    two: GlyphKey,
    cluster: GlyphKey,
)
    requires
        call_ensures(GlyphKey::scalar, (ch, style), one),
        call_ensures(GlyphKey::wide, (ch, style), two),
        call_ensures(GlyphKey::cluster, (id, style, columns), cluster),
    ensures
        one.id == GlyphId::Scalar(ch) && one.style == style && one.columns == 1,
        two.id == GlyphId::Scalar(ch) && two.style == style && two.columns == 2,
        cluster.id == GlyphId::Cluster(id) && cluster.style == style && cluster.columns == columns,
        key_code(one) != key_code(two),
{
}

proof fn lemma_coldest_of(pages: Seq<PageView>, format: PixelFormat, n: int, j: int)
    requires
        0 <= j < n <= pages.len(),
        pages[j].format == format,
    ensures
        coldest(pages, format, n) matches Some(i) && 0 <= i < n && pages[i].format == format
            && pages[i].last_used <= pages[j].last_used && (pages[i].last_used
            == pages[j].last_used ==> i <= j),
    decreases n,
{
    lemma_coldest(pages, format, n);
    if j < n - 1 {
        lemma_coldest_of(pages, format, n - 1, j);
    } else {
        lemma_coldest(pages, format, n - 1);
    }
}

/// The page that is emptied is of the format in need, and none of that format
/// was used longer ago.
pub proof fn law_the_page_used_longest_ago_goes(a: AtlasView, format: PixelFormat, j: int)
    requires
        0 <= j < a.pages.len(),
        a.pages[j].format == format,
    ensures
        coldest(a.pages, format, a.pages.len() as int) matches Some(i) && 0 <= i < a.pages.len()
            && a.pages[i].format == format && a.pages[i].last_used <= a.pages[j].last_used && (
        a.pages[i].last_used == a.pages[j].last_used ==> i <= j) && ({
            let b = evicted(a, format);
            &&& b.pages.len() == a.pages.len()
            &&& b.pages[i].packer.placed.len() == 0
            &&& b.pages[i].packer.used_area == 0
            &&& b.pages[i].format == format
            &&& j != i ==> b.pages[j] == a.pages[j]
        }),
{
    lemma_coldest_of(a.pages, format, a.pages.len() as int, j);
}

/// Emptying a page forgets the glyphs that were on it, and those that had been
/// refused, and no others; and whoever holds entries can tell.
pub proof fn law_only_the_emptied_page_is_forgotten(a: AtlasView, format: PixelFormat, code: u64)
    requires
        coldest(a.pages, format, a.pages.len() as int) is Some,
    ensures
        ({
            let i = coldest(a.pages, format, a.pages.len() as int)->0;
            let b = evicted(a, format);
            &&& a.entries.contains_key(code) && (a.entries[code].page != i || a.entries[code].rect.width
                == 0) ==> b.entries.contains_key(code) && b.entries[code] == a.entries[code]
            &&& a.entries.contains_key(code) && a.entries[code].page == i
                && a.entries[code].rect.width > 0 && a.entries[code].rect.height > 0
                ==> !b.entries.contains_key(code)
            &&& !a.entries.contains_key(code) ==> !b.entries.contains_key(code)
            &&& !b.rejected.contains(code)
            &&& b.generation != a.generation
            &&& b.pending == a.pending
            &&& b.frame == a.frame
            &&& b.metrics == a.metrics
            &&& b.page_size == a.page_size
        }),
{
    let i = coldest(a.pages, format, a.pages.len() as int)->0;
    let f = |c: u64| a.entries[c].page != i || a.entries[c].blank();
    assert(a.entries.dom().filter(f).contains(code) <==> a.entries.dom().contains(code) && f(code));
}

proof fn lemma_first_with_room(
    pages: Seq<PageView>,
    format: PixelFormat,
    width: u16,
    height: u16,
    n: int,
    j: int,
)
    requires
        0 <= j < n <= pages.len(),
        pages[j].format == format,
        placed_rect(pages[j].packer, width, height) is Some,
    ensures
        page_with_room(pages, format, width, height, n) matches Some(i) && 0 <= i <= j
            && pages[i].format == format,
    decreases n,
{
    lemma_page_with_room(pages, format, width, height, n);
    if j < n - 1 {
        lemma_first_with_room(pages, format, width, height, n - 1, j);
    } else {
        lemma_page_with_room(pages, format, width, height, n - 1);
    }
}

/// A bitmap goes on the first page of its format with room. A page is added only
/// where there is none and fewer than eight pages, and a page is emptied only
/// where there is none and none can be added.
pub proof fn law_pages_are_filled_in_order(a: AtlasView, code: u64, b: BitmapView, j: int)
    requires
        b.width > 0,
        b.height > 0,
    ensures
        0 <= j < a.pages.len() && a.pages[j].format == b.format && placed_rect(
            a.pages[j].packer,
            b.width,
            b.height,
        ) is Some ==> {
            let (after, entry) = inserted(a, code, b);
            &&& entry is Some && (j < 65536 ==> entry->0.page <= j)
            &&& after.pages.len() == a.pages.len()
            &&& after.generation == a.generation
        },
        a.pages.len() < 8 && placed_rect(empty_packer(a.page_size), b.width, b.height) is Some ==> {
            let (after, entry) = inserted(a, code, b);
            &&& entry is Some
            &&& after.generation == a.generation
            &&& after.pages.len() <= a.pages.len() + 1
        },
        a.pages.len() <= 8 ==> inserted(a, code, b).0.pages.len() <= 8,
{
    lemma_page_with_room(a.pages, b.format, b.width, b.height, a.pages.len() as int);
    if 0 <= j < a.pages.len() && a.pages[j].format == b.format && placed_rect(
        a.pages[j].packer,
        b.width,
        b.height,
    ) is Some {
        lemma_first_with_room(a.pages, b.format, b.width, b.height, a.pages.len() as int, j);
    }
    lemma_coldest(a.pages, b.format, a.pages.len() as int);
    let e = evicted(a, b.format);
    lemma_page_with_room(e.pages, b.format, b.width, b.height, e.pages.len() as int);
}

/// A bitmap that found room is cached under its glyph where it is uploaded, with
/// its own size, offsets, format and pixels. Other glyphs keep their entries
/// unless their page was emptied.
pub proof fn law_a_bitmap_is_uploaded_where_it_is_cached(a: AtlasView, code: u64, b: BitmapView)
    requires
        atlas_ok(a),
        b.width > 0,
        b.height > 0,
        inserted(a, code, b).1 is Some,
    ensures
        ({
            let (after, entry) = inserted(a, code, b);
            let e = entry->0;
            let up = after.pending.last();
            &&& after.entries.contains_key(code) && after.entries[code] == e
            &&& e.rect.width == b.width && e.rect.height == b.height
            &&& e.left == b.left && e.top == b.top && e.format == b.format
            &&& e.page < after.pages.len()
            &&& after.pages[e.page as int].format == b.format
            &&& after.pages[e.page as int].last_used == a.frame
            &&& after.pending.len() == a.pending.len() + 1
            &&& after.pending.drop_last() == a.pending
            &&& up.page == e.page && up.rect == e.rect && up.format == b.format && up.data == b.data
            &&& e.rect.x + b.width < a.page_size && e.rect.y + b.height < a.page_size
        }),
{
    let base = if place_for(a, b.format, b.width, b.height) is Some {
        a
    } else {
        evicted(a, b.format)
    };
    lemma_evicted_ok(a, b.format);
    lemma_page_with_room(base.pages, b.format, b.width, b.height, base.pages.len() as int);
    lemma_empty_page(a.page_size);
    let after = inserted(a, code, b).0;
    assert(after.pending.drop_last() =~= a.pending);
    match place_for(base, b.format, b.width, b.height) {
        None => {},
        Some((i, rect)) => {
            let packer = if i < base.pages.len() {
                base.pages[i].packer
            } else {
                empty_packer(a.page_size)
            };
            law_placements_stay_disjoint(packer, b.width, b.height);
            let grown = after_placement(packer, b.width, b.height);
            assert(grown.placed.last() == rect);
            assert(packed(grown));
            assert(grown.placed[grown.placed.len() - 1] == rect);
        },
    }
}

/// A glyph that no page has room for, even an emptied one, is remembered and not
/// drawn again until a page is emptied.
pub proof fn law_what_fits_nowhere_is_remembered(
    a: AtlasView,
    code: u64,
    b: BitmapView,
    again: Option<BitmapView>,
)
    requires
        b.width > 0,
        b.height > 0,
        !a.entries.contains_key(code),
        inserted(a, code, b).1 is None,
    ensures
        inserted(a, code, b).0.rejected.contains(code),
        !inserted(a, code, b).0.entries.contains_key(code),
        lookup_result(inserted(a, code, b).0, code, again) == (
            inserted(a, code, b).0,
            None::<GlyphEntry>,
        ),
{
    if coldest(a.pages, b.format, a.pages.len() as int) is Some {
        law_only_the_emptied_page_is_forgotten(a, b.format, code);
    }
}

/// A glyph that is found marks its page as used in this frame and changes
/// nothing else. A blank one takes no room and is not uploaded.
pub proof fn law_a_found_glyph_keeps_its_page(
    a: AtlasView,
    code: u64,
    drawn: Option<BitmapView>,
    b: BitmapView,
    other: u64,
)
    requires
        b.width == 0 || b.height == 0,
    ensures
        a.entries.contains_key(code) ==> {
            let (after, entry) = lookup_result(a, code, drawn);
            let page = a.entries[code].page as int;
            &&& entry == Some(a.entries[code])
            &&& after.entries == a.entries
            &&& after.pending == a.pending
            &&& page < a.pages.len() ==> after.pages[page].last_used == a.frame
                && after.pages[page].packer == a.pages[page].packer && after.pages[page].format
                == a.pages[page].format
            &&& forall|k: int|
                0 <= k < a.pages.len() && k != page ==> #[trigger] after.pages[k] == a.pages[k]
        },
        inserted(a, code, b).1 is Some && inserted(a, code, b).1->0.rect.width == 0,
        inserted(a, code, b).0.pages == a.pages,
        inserted(a, code, b).0.pending == a.pending,
        other != code && a.entries.contains_key(other) ==> inserted(a, code, b).0.entries[other]
            == a.entries[other],
{
}

/// A new atlas is empty, with pages of at least sixty-four pixels. The ordinary
/// page has a thousand and twenty-four.
pub proof fn law_a_new_atlas_is_empty(
    metrics: CellMetrics,
    size: u16,
    plain: Atlas,
    sized: Atlas,
)
    requires
        call_ensures(Atlas::new, (metrics,), plain),
        call_ensures(Atlas::with_page_size, (metrics, size), sized),
    ensures
        plain@.page_size == 1024,
        size >= 64 ==> sized@.page_size == size,
        size < 64 ==> sized@.page_size == 64,
        plain@.pages.len() == 0 && sized@.pages.len() == 0,
        plain@.pending.len() == 0 && sized@.pending.len() == 0,
        plain@.entries.dom().is_empty() && sized@.entries.dom().is_empty(),
        plain@.metrics == metrics && sized@.metrics == metrics,
{
}

/// Every page counts with one byte for each pixel of coverage and four for each
/// pixel of colour.
pub proof fn law_texture_bytes_add_up(pages: Seq<PageView>, page: PageView, size: u16)
    ensures
        pages_bytes(Seq::empty(), size) == 0,
        page.format == PixelFormat::Alpha8 ==> pages_bytes(pages.push(page), size) == pages_bytes(
            pages,
            size,
        ) + size * size,
        page.format == PixelFormat::Bgra8 ==> pages_bytes(pages.push(page), size) == pages_bytes(
            pages,
            size,
        ) + size * size * 4,
{
    assert(pages.push(page).drop_last() =~= pages);
    assert(size * size * 1 == size * size) by (nonlinear_arith);
}

} // verus!
