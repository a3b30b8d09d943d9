//! The grid cell.
//!
//! A cell is twenty bytes and stays twenty bytes. Grapheme clusters, underline
//! colour and hyperlinks do not live here: they live in side tables that plain
//! text never touches.

use vstd::prelude::*;

verus! {

/// A resolved or deferred colour, packed as `[tag:8][payload:24]`.
#[derive(Clone, Copy, Debug, PartialEq, Eq, Hash, Structural)]
pub struct Color(u32);

/// What a packed colour stands for.
pub enum ColorView {
    /// Whatever the theme says, decided when the cell is drawn.
    Default,
    /// An entry of the 256-colour palette.
    Palette(u8),
    /// A literal colour.
    Rgb(u8, u8, u8),
    /// A tag that no constructor writes.
    Unassigned(u32),
}

impl View for Color {
    type V = ColorView;

    closed spec fn view(&self) -> ColorView {
        let tag = self.0 / 0x100_0000;
        if tag == 0 {
            ColorView::Default
        } else if tag == 1 {
            ColorView::Palette((self.0 % 0x100) as u8)
        } else if tag == 2 {
            ColorView::Rgb(
                (self.0 / 0x1_0000 % 0x100) as u8,
                (self.0 / 0x100 % 0x100) as u8,
                (self.0 % 0x100) as u8,
            )
        } else {
            ColorView::Unassigned(self.0)
        }
    }
}

impl Color {
    /// The packed form of the colour.
    pub closed spec fn bits(self) -> u32 {
        self.0
    }

    /// Whether the packed form is one that a constructor writes.
    pub closed spec fn canonical(self) -> bool {
        match self@ {
            ColorView::Default => self.0 == 0,
            ColorView::Palette(index) => self.0 == 0x100_0000 + index,
            ColorView::Rgb(_, _, _) => true,
            ColorView::Unassigned(_) => false,
        }
    }

    /// The theme's own colour. Storing the role rather than a value is what
    /// lets a theme change without rewriting the grid.
    pub fn theme_default() -> (c: Color)
        ensures
            c@ == ColorView::Default,
            c.bits() == 0,
            c.canonical(),
    {
        Color(0)
    }

    pub fn palette(index: u8) -> (c: Color)
        ensures
            c@ == ColorView::Palette(index),
            c.bits() == 0x100_0000 + index,
            c.canonical(),
    {
        Color(0x100_0000 + index as u32)
    }

    pub fn rgb(r: u8, g: u8, b: u8) -> (c: Color)
        ensures
            c@ == ColorView::Rgb(r, g, b),
            c.bits() == 0x200_0000 + r * 0x1_0000 + g * 0x100 + b,
            c.canonical(),
    {
        Color(0x200_0000 + r as u32 * 0x1_0000 + g as u32 * 0x100 + b as u32)
    }

    pub fn is_default(self) -> (yes: bool)
        ensures
            yes == (self@ is Default),
    {
        self.0 / 0x100_0000 == 0
    }

    pub fn as_palette(self) -> (index: Option<u8>)
        ensures
            index == match self@ {
                ColorView::Palette(i) => Some(i),
                _ => None,
            },
    {
        if self.0 / 0x100_0000 == 1 {
            Some((self.0 % 0x100) as u8)
        } else {
            None
        }
    }

    pub fn as_rgb(self) -> (parts: Option<(u8, u8, u8)>)
        ensures
            parts == match self@ {
                ColorView::Rgb(r, g, b) => Some((r, g, b)),
                _ => None,
            },
    {
        if self.0 / 0x100_0000 == 2 {
            Some(
                (
                    (self.0 / 0x1_0000 % 0x100) as u8,
                    (self.0 / 0x100 % 0x100) as u8,
                    (self.0 % 0x100) as u8,
                ),
            )
        } else {
            None
        }
    }

    pub fn to_bits(self) -> (bits: u32)
        ensures
            bits == self.bits(),
    {
        self.0
    }
}

/// The packing loses nothing: colours that a constructor made are equal exactly
/// when they stand for the same thing.
pub proof fn law_color_packing_is_faithful(a: Color, b: Color)
    requires
        a.canonical(),
        b.canonical(),
    ensures
        a == b <==> a@ == b@,
{
}

/// What occupies a cell, packed: a character directly, or, with the top bit
/// set, an index into the grapheme table.
#[derive(Clone, Copy, Debug, PartialEq, Eq, Hash, Structural)]
pub struct CellContent(u32);

/// What a packed content stands for.
pub enum ContentView {
    /// One Unicode scalar.
    Scalar(char),
    /// An entry of the grapheme table.
    Cluster(u32),
    /// Neither a scalar nor a cluster index; no constructor writes one.
    Unassigned(u32),
}

/// The bit that tells a cluster index from a scalar.
pub const CLUSTER_TAG: u32 = 0x8000_0000;

/// Whether `v` is a Unicode scalar value.
pub open spec fn is_scalar_value(v: u32) -> bool {
    v <= 0xD7FF || 0xE000 <= v <= 0x10_FFFF
}

/// `char::from_u32`: the character with that scalar value, if there is one.
#[verifier::external_body]
pub(crate) fn char_from_u32(v: u32) -> (c: Option<char>)
    ensures
        c == if is_scalar_value(v) {
            Some(v as char)
        } else {
            None
        },
{
    char::from_u32(v)
}

impl View for CellContent {
    type V = ContentView;

    closed spec fn view(&self) -> ContentView {
        if self.0 >= CLUSTER_TAG {
            ContentView::Cluster((self.0 - CLUSTER_TAG) as u32)
        } else if is_scalar_value(self.0) {
            ContentView::Scalar(self.0 as char)
        } else {
            ContentView::Unassigned(self.0)
        }
    }
}

impl CellContent {
    /// A space: what an untouched cell holds.
    pub fn empty() -> (c: CellContent)
        ensures
            c@ == ContentView::Scalar(' '),
    {
        CellContent(' ' as u32)
    }

    pub fn scalar(c: char) -> (content: CellContent)
        ensures
            content@ == ContentView::Scalar(c),
    {
        CellContent(c as u32)
    }

    /// A reference into the grapheme table.
    pub fn cluster(index: u32) -> (content: CellContent)
        requires
            index < CLUSTER_TAG,
        ensures
            content@ == ContentView::Cluster(index),
    {
        CellContent(CLUSTER_TAG + index)
    }

    pub fn as_scalar(self) -> (c: Option<char>)
        ensures
            c == match self@ {
                ContentView::Scalar(ch) => Some(ch),
                _ => None,
            },
    {
        if self.0 < CLUSTER_TAG {
            char_from_u32(self.0)
        } else {
            None
        }
    }

    pub fn as_cluster(self) -> (index: Option<u32>)
        ensures
            index == match self@ {
                ContentView::Cluster(i) => Some(i),
                _ => None,
            },
    {
        if self.0 >= CLUSTER_TAG {
            Some(self.0 - CLUSTER_TAG)
        } else {
            None
        }
    }

    /// A space or a NUL: nothing to draw.
    pub fn is_empty(self) -> (yes: bool)
        ensures
            yes == (self@ == ContentView::Scalar(' ') || self@ == ContentView::Scalar('\0')),
    {
        assert('\0' as u32 == 0);
        self.0 == ' ' as u32 || self.0 == 0
    }
}

/// A scalar never collides with the cluster tag, and either kind of content
/// determines the packed form.
pub proof fn law_content_packing_is_faithful(a: CellContent, b: CellContent)
    ensures
        a == b <==> a@ == b@,
{
}

/// Per-cell rendering attributes. Underline *style* is here, as a small number
/// in bits 8 to 11; underline *colour* is in a side table.
#[derive(Clone, Copy, Debug, PartialEq, Eq, Hash, Structural)]
pub struct CellFlags(u16);

/// The bits that a flag set holds.
pub const BOLD_BITS: u16 = 0x0001;
pub const DIM_BITS: u16 = 0x0002;
pub const ITALIC_BITS: u16 = 0x0004;
pub const INVERSE_BITS: u16 = 0x0008;
pub const HIDDEN_BITS: u16 = 0x0010;
pub const STRIKETHROUGH_BITS: u16 = 0x0020;
pub const OVERLINE_BITS: u16 = 0x0040;
pub const UNDERLINE_SINGLE_BITS: u16 = 0x0100;
pub const UNDERLINE_DOUBLE_BITS: u16 = 0x0200;
pub const UNDERLINE_CURLY_BITS: u16 = 0x0300;
pub const UNDERLINE_DOTTED_BITS: u16 = 0x0400;
pub const UNDERLINE_DASHED_BITS: u16 = 0x0500;
pub const UNDERLINE_MASK_BITS: u16 = 0x0F00;
pub const WIDE_SPACER_BITS: u16 = 0x1000;

/// The attributes that draw something even where the content is empty:
/// underline, strikethrough, overline and inverse.
pub const VISIBLE_BITS: u16 = 0x0F68;

impl View for CellFlags {
    type V = u16;

    closed spec fn view(&self) -> u16 {
        self.0
    }
}

impl CellFlags {
    pub fn empty() -> (f: CellFlags)
        ensures
            f@ == 0,
    {
        CellFlags(0)
    }

    pub fn bold() -> (f: CellFlags)
        ensures
            f@ == BOLD_BITS,
    {
        CellFlags(BOLD_BITS)
    }

    pub fn dim() -> (f: CellFlags)
        ensures
            f@ == DIM_BITS,
    {
        CellFlags(DIM_BITS)
    }

    pub fn italic() -> (f: CellFlags)
        ensures
            f@ == ITALIC_BITS,
    {
        CellFlags(ITALIC_BITS)
    }

    pub fn inverse() -> (f: CellFlags)
        ensures
            f@ == INVERSE_BITS,
    {
        CellFlags(INVERSE_BITS)
    }

    pub fn hidden() -> (f: CellFlags)
        ensures
            f@ == HIDDEN_BITS,
    {
        CellFlags(HIDDEN_BITS)
    }

    pub fn strikethrough() -> (f: CellFlags)
        ensures
            f@ == STRIKETHROUGH_BITS,
    {
        CellFlags(STRIKETHROUGH_BITS)
    }

    pub fn overline() -> (f: CellFlags)
        ensures
            f@ == OVERLINE_BITS,
    {
        CellFlags(OVERLINE_BITS)
    }

    pub fn underline_single() -> (f: CellFlags)
        ensures
            f@ == UNDERLINE_SINGLE_BITS,
    {
        CellFlags(UNDERLINE_SINGLE_BITS)
    }

    pub fn underline_double() -> (f: CellFlags)
        ensures
            f@ == UNDERLINE_DOUBLE_BITS,
    {
        CellFlags(UNDERLINE_DOUBLE_BITS)
    }

    pub fn underline_curly() -> (f: CellFlags)
        ensures
            f@ == UNDERLINE_CURLY_BITS,
    {
        CellFlags(UNDERLINE_CURLY_BITS)
    }

    pub fn underline_dotted() -> (f: CellFlags)
        ensures
            f@ == UNDERLINE_DOTTED_BITS,
    {
        CellFlags(UNDERLINE_DOTTED_BITS)
    }

    pub fn underline_dashed() -> (f: CellFlags)
        ensures
            f@ == UNDERLINE_DASHED_BITS,
    {
        CellFlags(UNDERLINE_DASHED_BITS)
    }

    /// Every bit of the underline style.
    pub fn underline_mask() -> (f: CellFlags)
        ensures
            f@ == UNDERLINE_MASK_BITS,
    {
        CellFlags(UNDERLINE_MASK_BITS)
    }

    /// The trailing half of a double-width cell. It has no glyph of its own.
    pub fn wide_spacer() -> (f: CellFlags)
        ensures
            f@ == WIDE_SPACER_BITS,
    {
        CellFlags(WIDE_SPACER_BITS)
    }

    pub fn bits(self) -> (bits: u16)
        ensures
            bits == self@,
    {
        self.0
    }

    pub fn from_bits_truncate(bits: u16) -> (f: CellFlags)
        ensures
            f@ == bits,
    {
        CellFlags(bits)
    }

    pub fn contains(self, other: CellFlags) -> (yes: bool)
        ensures
            yes == (self@ & other@ == other@),
    {
        self.0 & other.0 == other.0
    }

    pub fn intersects(self, other: CellFlags) -> (yes: bool)
        ensures
            yes == (self@ & other@ != 0),
    {
        self.0 & other.0 != 0
    }

    pub fn union(self, other: CellFlags) -> (f: CellFlags)
        ensures
            f@ == self@ | other@,
    {
        CellFlags(self.0 | other.0)
    }

    pub fn intersection(self, other: CellFlags) -> (f: CellFlags)
        ensures
            f@ == self@ & other@,
    {
        CellFlags(self.0 & other.0)
    }

    pub fn difference(self, other: CellFlags) -> (f: CellFlags)
        ensures
            f@ == self@ & !other@,
    {
        CellFlags(self.0 & !other.0)
    }

    pub fn is_empty(self) -> (yes: bool)
        ensures
            yes == (self@ == 0),
    {
        self.0 == 0
    }

    pub fn insert(&mut self, other: CellFlags)
        ensures
            final(self)@ == old(self)@ | other@,
    {
        self.0 = self.0 | other.0;
    }

    pub fn remove(&mut self, other: CellFlags)
        ensures
            final(self)@ == old(self)@ & !other@,
    {
        self.0 = self.0 & !other.0;
    }

    pub fn set(&mut self, other: CellFlags, on: bool)
        ensures
            final(self)@ == with_bits(old(self)@, other@, on),
    {
        if on {
            self.insert(other)
        } else {
            self.remove(other)
        }
    }
}

/// `bits` with those of `other` switched on or off.
pub open spec fn with_bits(bits: u16, other: u16, on: bool) -> u16 {
    if on {
        bits | other
    } else {
        bits & !other
    }
}

/// Switching bits on makes them all present, switching them off makes them all
/// absent, and either way every other bit keeps its value.
pub proof fn law_set_then_contains(bits: u16, other: u16, rest: u16)
    requires
        other & rest == 0,
    ensures
        with_bits(bits, other, true) & other == other,
        with_bits(bits, other, false) & other == 0,
        with_bits(bits, other, true) & rest == bits & rest,
        with_bits(bits, other, false) & rest == bits & rest,
{
    assert((bits | other) & other == other && (bits & !other) & other == 0 && (bits | other) & rest
        == bits & rest && (bits & !other) & rest == bits & rest) by (bit_vector)
        requires
            other & rest == 0,
    ;
}

/// Index into the extras table. Zero means that the cell has none.
pub type ExtraId = u32;

pub const NO_EXTRA: u32 = 0;

/// One grid cell.
#[derive(Clone, Copy, Debug, PartialEq, Eq, Structural)]
pub struct Cell {
    pub content: CellContent,
    pub fg: Color,
    pub bg: Color,
    /// Underline colour and hyperlink, by their place in the extras table.
    pub extra: ExtraId,
    pub flags: CellFlags,
    /// One column, or two.
    pub width: u8,
}

impl Cell {
    /// The size of a cell in bytes.
    pub const SIZE: usize = 20;

    /// An untouched cell.
    pub open spec fn is_empty_cell(self) -> bool {
        &&& self.content@ == ContentView::Scalar(' ')
        &&& self.fg@ is Default && self.fg.canonical()
        &&& self.bg@ is Default && self.bg.canonical()
        &&& self.extra == NO_EXTRA
        &&& self.flags@ == 0
        &&& self.width == 1
    }

    /// The untouched cell: a space in the theme's colours.
    pub fn empty() -> (c: Cell)
        ensures
            c.is_empty_cell(),
            c == empty_cell(),
    {
        let c = Cell {
            content: CellContent::empty(),
            fg: Color::theme_default(),
            bg: Color::theme_default(),
            extra: NO_EXTRA,
            flags: CellFlags::empty(),
            width: 1,
        };
        proof {
            lemma_empty_cell_unique(c, empty_cell());
        }
        c
    }

    pub fn new(content: CellContent, fg: Color, bg: Color, flags: CellFlags) -> (c: Cell)
        ensures
            c.content == content,
            c.fg == fg,
            c.bg == bg,
            c.extra == NO_EXTRA,
            c.flags == flags,
            c.width == 1,
    {
        Cell { content, fg, bg, extra: NO_EXTRA, flags, width: 1 }
    }

    /// The full constructor.
    pub fn build(
        content: CellContent,
        fg: Color,
        bg: Color,
        extra: ExtraId,
        flags: CellFlags,
        width: u8,
    ) -> (c: Cell)
        ensures
            c.content == content,
            c.fg == fg,
            c.bg == bg,
            c.extra == extra,
            c.flags == flags,
            c.width == width,
    {
        Cell { content, fg, bg, extra, flags, width }
    }

    /// Whether the cell draws nothing at all.
    pub open spec fn blank(self) -> bool {
        &&& self.content@ == ContentView::Scalar(' ') || self.content@ == ContentView::Scalar('\0')
        &&& self.bg@ is Default
        &&& self.extra == NO_EXTRA
        &&& self.flags@ & VISIBLE_BITS == 0
    }

    /// True when the cell would render as nothing at all.
    pub fn is_blank(&self) -> (yes: bool)
        ensures
            yes == self.blank(),
    {
        let drawn = CellFlags::underline_mask().union(CellFlags::strikethrough()).union(
            CellFlags::overline(),
        ).union(CellFlags::inverse());
        assert(0x0F00u16 | 0x0020u16 | 0x0040u16 | 0x0008u16 == 0x0F68u16) by (bit_vector);
        self.content.is_empty() && self.bg.is_default() && self.extra == NO_EXTRA
            && self.flags.intersection(drawn).is_empty()
    }
}

/// The untouched cell, as a value.
pub closed spec fn empty_cell() -> Cell {
    Cell {
        content: CellContent(' ' as u32),
        fg: Color(0),
        bg: Color(0),
        extra: NO_EXTRA,
        flags: CellFlags(0),
        width: 1,
    }
}

/// There is one untouched cell.
pub proof fn lemma_empty_cell_unique(a: Cell, b: Cell)
    requires
        a.is_empty_cell(),
        b.is_empty_cell(),
    ensures
        a == b,
{
}

/// The untouched cell draws nothing.
pub proof fn law_empty_cell_is_blank(c: Cell)
    requires
        c.is_empty_cell(),
    ensures
        c.blank(),
{
    assert(0u16 & 0x0F68u16 == 0) by (bit_vector);
}

impl Default for Cell {
    fn default() -> (c: Cell)
        ensures
            c == empty_cell(),
            c.is_empty_cell(),
    {
        Cell::empty()
    }
}

/// The value that stands for the untouched cell is one.
pub proof fn lemma_the_empty_cell()
    ensures
        empty_cell().is_empty_cell(),
{
}

/// The untouched cell is a space in the theme's colours, one column wide, with
/// nothing about it.
pub proof fn law_the_untouched_cell_is_a_space(c: Cell)
    requires
        c.is_empty_cell(),
    ensures
        c.content@ == ContentView::Scalar(' '),
        c.fg@ == ColorView::Default,
        c.bg@ == ColorView::Default,
        c.extra == 0,
        c.flags@ == 0,
        c.width == 1,
{
}

/// A cell draws something exactly where it has a visible character, a background
/// of its own, an underline colour or a link, or is underlined, struck through,
/// overlined or inverted. Bold, dim, italic and hidden alone draw nothing.
pub proof fn law_a_cell_is_blank_where_nothing_is_seen(c: Cell)
    ensures
        c.blank() <==> {
            &&& c.content@ == ContentView::Scalar(' ') || c.content@ == ContentView::Scalar('\0')
            &&& c.bg@ == ColorView::Default
            &&& c.extra == 0
            &&& (c.flags@ / 0x100) % 16 == 0
            &&& (c.flags@ / 0x20) % 4 == 0
            &&& (c.flags@ / 8) % 2 == 0
        },
{
    let f = c.flags@;
    assert(f & 0x0F68 == 0 <==> (f / 0x100) % 16 == 0 && (f / 0x20) % 4 == 0 && (f / 8) % 2 == 0)
        by (bit_vector);
}

/// A packed colour tells what it was made from: its number is that of the tag
/// and, below it, of the palette entry or of red, green and blue.
pub proof fn law_packed_colours_unpack(c: Color)
    requires
        c.canonical(),
    ensures
        c@ == ColorView::Default <==> c.bits() == 0,
        forall|i: u8| c@ == ColorView::Palette(i) <==> c.bits() == 0x100_0000 + i,
        forall|r: u8, g: u8, b: u8|
            c@ == ColorView::Rgb(r, g, b) <==> c.bits() == 0x200_0000 + r * 0x1_0000 + g * 0x100
                + b,
{
}

} // verus!
