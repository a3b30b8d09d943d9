//! A terminal over the `alacritty_terminal` crate.
//!
//! Two things are not that crate's. Damage goes through the mirror: the crate
//! marks the cursor's row damaged on every call, and passed on as it is that
//! would keep the renderer awake forever. And operating-system commands are
//! sniffed before the parser sees them, since it has no notion of prompts.

use alacritty_terminal::event::{Event, EventListener};
use alacritty_terminal::grid::{Dimensions, Scroll};
use alacritty_terminal::index::{Column, Line, Point as GridPoint, Side};
use alacritty_terminal::selection::{Selection as GridSelection, SelectionType};
use alacritty_terminal::term::{Config, Term, TermDamage};
use alacritty_terminal::vte::ansi::{Color as GridColor, CursorShape as GridShape, Processor};
use std::sync::mpsc::{Receiver, Sender};
use vstd::prelude::*;
use vstd::utf8::*;

use crate::backend::{
    CursorShape, CursorState, MouseEncoding, MouseTracking, Point, Selection, SelectionKind,
    TermModes,
};
use crate::cell::{
    with_bits, Cell, CellContent, CellFlags, Color, ColorView, ContentView, BOLD_BITS, CLUSTER_TAG,
    DIM_BITS, HIDDEN_BITS, INVERSE_BITS, ITALIC_BITS, NO_EXTRA, STRIKETHROUGH_BITS,
    UNDERLINE_CURLY_BITS, UNDERLINE_DASHED_BITS, UNDERLINE_DOTTED_BITS, UNDERLINE_DOUBLE_BITS,
    UNDERLINE_SINGLE_BITS, WIDE_SPACER_BITS,
};
use crate::mirror::{
    at_least_one, blank_mirror, count_true, fitted_row, rectangular, with_row, Mirror, MirrorView,
    RowRef,
};
use crate::osc::{fresh_sniffer, sniff, OscSniffer, SnifferView};
use crate::raster::held;
use crate::semantic::{event_views, text_view, EventView, SemanticEvent};
use crate::sidetable::{Extras, SideTables};
use crate::text::{push_text, string_of};

verus! {

/// `alacritty_terminal::event::Event`, carried through.
#[verifier::external_type_specification]
#[verifier::external_body]
pub struct ExEvent(alacritty_terminal::event::Event);

/// `alacritty_terminal::term::Term`, carried through.
#[verifier::external_type_specification]
#[verifier::external_body]
#[verifier::reject_recursive_types(T)]
pub struct ExTerm<T>(alacritty_terminal::term::Term<T>);

/// `std::sync::mpsc::Sender`, carried through.
#[verifier::external_type_specification]
#[verifier::external_body]
#[verifier::reject_recursive_types(T)]
pub struct ExSender<T>(std::sync::mpsc::Sender<T>);

/// `std::sync::mpsc::Receiver`, carried through.
#[verifier::external_type_specification]
#[verifier::external_body]
#[verifier::reject_recursive_types(T)]
pub struct ExReceiver<T>(std::sync::mpsc::Receiver<T>);

/// A `vte::ansi::Processor`, whose type parameter carries a bound on a trait of
/// its crate.
#[verifier::external_body]
pub struct VtParser {
    inner: Processor,
}

/// Where the terminal sends what it has to say.
pub struct SinkHandle {
    tx: Sender<Event>,
}

impl EventListener for SinkHandle {
    fn send_event(&self, event: Event) {
        send(&self.tx, event);
    }
}

/// `Sender::send`: hands an event to the other end, or drops it where there is
/// none.
#[verifier::external_body]
fn send(tx: &Sender<Event>, event: Event) {
    let _ = tx.send(event);
}

/// A colour as the grid stores it.
#[derive(Debug, Clone, Copy, PartialEq, Eq, Structural)]
pub enum SourceColor {
    /// One of the named colours, by its number: below 256 an entry of the
    /// palette, from there on the terminal's own.
    Named(u16),
    Indexed(u8),
    Rgb(u8, u8, u8),
}

/// A cell of the grid, with its texts as character sequences.
#[verifier::ext_equal]
pub struct SourceView {
    pub c: char,
    /// Characters without a width of their own, drawn with the first.
    pub zerowidth: Seq<char>,
    pub fg: SourceColor,
    pub bg: SourceColor,
    pub flags: u16,
    pub underline: Option<SourceColor>,
    pub hyperlink: Option<Seq<char>>,
}

/// A cell of the grid.
#[derive(Debug)]
pub struct SourceCell {
    pub c: char,
    pub zerowidth: Vec<char>,
    pub fg: SourceColor,
    pub bg: SourceColor,
    pub flags: u16,
    pub underline: Option<SourceColor>,
    pub hyperlink: Option<String>,
}

impl View for SourceCell {
    type V = SourceView;

    open spec fn view(&self) -> SourceView {
        SourceView {
            c: self.c,
            zerowidth: self.zerowidth@,
            fg: self.fg,
            bg: self.bg,
            flags: self.flags,
            underline: self.underline,
            hyperlink: match self.hyperlink {
                Some(uri) => Some(uri@),
                None => None,
            },
        }
    }
}

/// The cursor's shape as the terminal has it.
#[derive(Debug, Clone, Copy, PartialEq, Eq, Structural)]
pub enum SourceShape {
    Block,
    Underline,
    Beam,
    HollowBlock,
    Hidden,
}

/// The cells that a selection covers: lines count from the top of the screen.
#[derive(Debug, Clone, Copy, PartialEq, Eq)]
pub struct SelectedRange {
    pub start: (i32, usize),
    pub end: (i32, usize),
    pub block: bool,
}

/// What a terminal holds.
#[verifier::ext_equal]
pub struct ScreenView {
    pub columns: int,
    pub lines: int,
    /// Lines above the screen.
    pub history: int,
    /// How many lines the window is scrolled up.
    pub offset: int,
    /// All lines, the oldest first.
    pub cells: Seq<Seq<SourceView>>,
    /// Line of the screen, and column.
    pub cursor: (int, int),
    pub shape: SourceShape,
    pub blinking: bool,
    pub mode: u32,
    pub selected: Option<SelectedRange>,
    /// The lines of the window that changed since damage was last reset, or all
    /// of them.
    pub damage: Option<Seq<usize>>,
}

impl ScreenView {
    /// Whether every line has its cells, the cursor is inside, and vi mode, in
    /// which keys move about the screen, is off.
    pub open spec fn laid_out(self) -> bool {
        &&& 1 <= self.columns <= u16::MAX
        &&& 1 <= self.lines <= u16::MAX
        &&& 0 <= self.offset
        &&& 0 <= self.history
        &&& self.history + self.lines <= i32::MAX
        &&& self.cells.len() == self.history + self.lines
        &&& forall|i: int|
            0 <= i < self.cells.len() ==> (#[trigger] self.cells[i]).len() == self.columns
        &&& 0 <= self.cursor.0 < self.lines
        &&& 0 <= self.cursor.1 < self.columns
        &&& self.mode & MODE_VI == 0
    }

    /// Laid out, with the window inside of what is kept.
    pub open spec fn sound(self) -> bool {
        &&& self.laid_out()
        &&& self.offset <= self.history
    }

    /// Whether a cell is there.
    pub open spec fn has(self, at: (i32, usize)) -> bool {
        -self.history <= at.0 < self.lines && at.1 < self.columns
    }

    /// Whether both ends of a range are there. What is selected moves with the
    /// lines that scroll, and an end may leave the grid on the way.
    pub open spec fn holds(self, r: SelectedRange) -> bool {
        self.has(r.start) && self.has(r.end)
    }

    /// A cell, by its line of the screen and its column.
    pub open spec fn at(self, line: int, column: int) -> SourceView {
        self.cells[line + self.history][column]
    }
}

/// What a terminal of the `alacritty_terminal` crate holds.
pub uninterp spec fn screen(t: Term<SinkHandle>) -> ScreenView;

/// How many lines a terminal keeps above its screen, at most.
pub uninterp spec fn limit(t: Term<SinkHandle>) -> nat;

/// The bytes that a parser has been handed, from the first on.
pub uninterp spec fn heard(p: VtParser) -> Seq<u8>;

/// What a terminal holds once `Processor::advance` has handed it bytes.
pub uninterp spec fn written(p: VtParser, t: Term<SinkHandle>, bytes: Seq<u8>) -> ScreenView;

/// What a terminal holds once `Term::resize` has reflowed it.
pub uninterp spec fn resized(t: Term<SinkHandle>, columns: int, lines: int) -> ScreenView;

/// The queue that a receiver takes events out of.
pub uninterp spec fn empties(rx: Receiver<Event>) -> int;

/// The queue that a terminal tells its events to.
pub uninterp spec fn tells(t: Term<SinkHandle>) -> int;

/// What a terminal has told that nobody took out of the queue yet.
pub uninterp spec fn unheard(t: Term<SinkHandle>) -> Seq<TermEventView>;

/// What a terminal tells while `Processor::advance` hands it bytes.
pub uninterp spec fn spoken(p: VtParser, t: Term<SinkHandle>, bytes: Seq<u8>) -> Seq<TermEventView>;

/// The cells that a selection between two places covers, as
/// `Selection::to_range` works them out for a grid of that size.
pub uninterp spec fn selection_range(
    columns: int,
    top: int,
    bottom: int,
    block: bool,
    start: (i32, usize),
    end: (i32, usize),
) -> Option<SelectedRange>;

/// The text that `Term::selection_to_string` gives.
pub uninterp spec fn selected_text(t: Term<SinkHandle>) -> Option<Seq<char>>;

/// The text that `Term::bounds_to_string` gives.
pub uninterp spec fn text_between(t: Term<SinkHandle>, start: (i32, usize), end: (i32, usize)) -> Seq<
    char,
>;

/// The bits of a cell's flags.
pub const SOURCE_INVERSE: u16 = 0x0001;

pub const SOURCE_BOLD: u16 = 0x0002;

pub const SOURCE_ITALIC: u16 = 0x0004;

pub const SOURCE_UNDERLINE: u16 = 0x0008;

pub const SOURCE_WRAPLINE: u16 = 0x0010;

pub const SOURCE_WIDE: u16 = 0x0020;

pub const SOURCE_SPACER: u16 = 0x0040;

pub const SOURCE_DIM: u16 = 0x0080;

pub const SOURCE_HIDDEN: u16 = 0x0100;

pub const SOURCE_STRIKEOUT: u16 = 0x0200;

pub const SOURCE_LEADING_SPACER: u16 = 0x0400;

pub const SOURCE_DOUBLE_UNDERLINE: u16 = 0x0800;

pub const SOURCE_UNDERCURL: u16 = 0x1000;

pub const SOURCE_DOTTED_UNDERLINE: u16 = 0x2000;

pub const SOURCE_DASHED_UNDERLINE: u16 = 0x4000;

/// The bits of a terminal's modes.
pub const MODE_SHOW_CURSOR: u32 = 0x0001;

pub const MODE_MOUSE_CLICK: u32 = 0x0008;

pub const MODE_BRACKETED_PASTE: u32 = 0x0010;

pub const MODE_SGR_MOUSE: u32 = 0x0020;

pub const MODE_MOUSE_MOTION: u32 = 0x0040;

pub const MODE_FOCUS: u32 = 0x0800;

pub const MODE_MOUSE_DRAG: u32 = 0x2000;

pub const MODE_UTF8_MOUSE: u32 = 0x4000;

pub const MODE_VI: u32 = 0x1_0000;

/// The modes of a new terminal: the cursor is shown, lines wrap, the wheel
/// scrolls the alternate screen, and urgency is hinted.
pub const MODE_DEFAULT: u32 = 0x28081;

/// An untouched cell of the grid.
pub open spec fn blank_source() -> SourceView {
    SourceView {
        c: ' ',
        zerowidth: Seq::empty(),
        fg: SourceColor::Named(256),
        bg: SourceColor::Named(257),
        flags: 0,
        underline: None,
        hyperlink: None,
    }
}

/// A new terminal.
pub open spec fn fresh_screen(columns: int, lines: int) -> ScreenView {
    ScreenView {
        columns,
        lines,
        history: 0,
        offset: 0,
        cells: Seq::new(
            lines as nat,
            |i: int| Seq::new(columns as nat, |k: int| blank_source()),
        ),
        cursor: (0, 0),
        shape: SourceShape::Block,
        blinking: false,
        mode: MODE_DEFAULT,
        selected: None,
        damage: None,
    }
}

/// Columns and lines, as the terminal wants them.
struct GridSize {
    columns: usize,
    lines: usize,
}

impl Dimensions for GridSize {
    fn total_lines(&self) -> usize {
        self.lines
    }

    fn screen_lines(&self) -> usize {
        self.lines
    }

    fn columns(&self) -> usize {
        self.columns
    }
}

/// What events say.
pub open spec fn all_said(events: Seq<Event>) -> Seq<TermEventView> {
    events.map_values(|e: Event| event_said(e))
}

/// `Receiver::try_iter`: everything that the terminal told its queue so far, in
/// that order, after which nothing waits there. The queue belongs to the
/// terminal, which is otherwise left as it is.
#[verifier::external_body]
fn received(rx: &Receiver<Event>, _term: &mut Term<SinkHandle>) -> (events: Vec<Event>)
    requires
        empties(*rx) == tells(*old(_term)),
    ensures
        all_said(events@) == unheard(*old(_term)),
        unheard(*final(_term)).len() == 0,
        tells(*final(_term)) == tells(*old(_term)),
        screen(*final(_term)) == screen(*old(_term)),
        limit(*final(_term)) == limit(*old(_term)),
{
    rx.try_iter().collect()
}

/// What a terminal has to say, as far as it matters here.
#[derive(Debug)]
pub enum TermEvent {
    /// An answer for the child.
    Reply(String),
    Title(String),
    ResetTitle,
    Clipboard(String),
    Bell,
    Other,
}

/// [`TermEvent`] with its texts as character sequences.
pub enum TermEventView {
    Reply(Seq<char>),
    Title(Seq<char>),
    ResetTitle,
    Clipboard(Seq<char>),
    Bell,
    Other,
}

impl View for TermEvent {
    type V = TermEventView;

    open spec fn view(&self) -> TermEventView {
        match *self {
            TermEvent::Reply(t) => TermEventView::Reply(t@),
            TermEvent::Title(t) => TermEventView::Title(t@),
            TermEvent::ResetTitle => TermEventView::ResetTitle,
            TermEvent::Clipboard(t) => TermEventView::Clipboard(t@),
            TermEvent::Bell => TermEventView::Bell,
            TermEvent::Other => TermEventView::Other,
        }
    }
}

/// What an event says.
pub uninterp spec fn event_said(e: Event) -> TermEventView;

/// An `Event` as one of the library's own.
#[verifier::external_body]
fn said(event: Event) -> (e: TermEvent)
    ensures
        e@ == event_said(event),
{
    match event {
        Event::PtyWrite(text) => TermEvent::Reply(text),
        Event::Title(title) => TermEvent::Title(title),
        Event::ResetTitle => TermEvent::ResetTitle,
        Event::ClipboardStore(_, text) => TermEvent::Clipboard(text),
        Event::Bell => TermEvent::Bell,
        _ => TermEvent::Other,
    }
}

/// `Processor::new`: a parser that has seen nothing.
#[verifier::external_body]
fn new_parser() -> (p: VtParser)
    ensures
        heard(p) == Seq::<u8>::empty(),
{
    VtParser { inner: Processor::new() }
}

/// `Term::new`: an empty terminal of that size, keeping up to `scrollback` lines,
/// with the far end of the queue that it tells its events to. It has told
/// nothing.
#[verifier::external_body]
fn new_term(columns: u16, lines: u16, scrollback: u32) -> (made: (
    Term<SinkHandle>,
    Receiver<Event>,
))
    requires
        columns >= 1,
        lines >= 1,
        scrollback <= MAX_SCROLLBACK,
    ensures
        screen(made.0) == fresh_screen(columns as int, lines as int),
        limit(made.0) == scrollback,
        tells(made.0) == empties(made.1),
        unheard(made.0).len() == 0,
{
    let (tx, rx) = std::sync::mpsc::channel();
    let config = Config { scrolling_history: scrollback as usize, ..Config::default() };
    let size = GridSize { columns: columns as usize, lines: lines as usize };
    (Term::new(config, &size, SinkHandle { tx }), rx)
}

/// `Processor::advance`: hands the bytes to the terminal, whose size stays. A
/// window that is scrolled up moves on with the lines that scroll, as far as the
/// limit, even where they do not enter the history. It indexes past the end of a
/// row when a character two columns wide arrives in a terminal of one column, so
/// in such a terminal the bytes have to be ASCII.
#[verifier::external_body]
fn advance(parser: &mut VtParser, term: &mut Term<SinkHandle>, bytes: &[u8])
    requires
        screen(*old(term)).sound(),
        screen(*old(term)).history <= limit(*old(term)) <= MAX_SCROLLBACK,
        screen(*old(term)).columns >= 2 || ascii(bytes@),
    ensures
        screen(*final(term)) == written(*old(parser), *old(term), bytes@),
        heard(*final(parser)) == heard(*old(parser)) + bytes@,
        limit(*final(term)) == limit(*old(term)),
        tells(*final(term)) == tells(*old(term)),
        unheard(*final(term)) == unheard(*old(term)) + spoken(*old(parser), *old(term), bytes@),
        screen(*final(term)).laid_out(),
        screen(*final(term)).history <= limit(*final(term)),
        screen(*final(term)).offset <= limit(*final(term)),
        screen(*final(term)).columns == screen(*old(term)).columns,
        screen(*final(term)).lines == screen(*old(term)).lines,
{
    parser.inner.advance(term, bytes);
}

/// `Term::resize`: reflows to a new size, which damages all of it and tells
/// nothing. With one column it does not return where a character is two columns
/// wide, so the size has at least two.
#[verifier::external_body]
fn resize_term(term: &mut Term<SinkHandle>, columns: u16, lines: u16)
    requires
        screen(*old(term)).sound(),
        screen(*old(term)).history <= limit(*old(term)) <= MAX_SCROLLBACK,
        columns >= 2,
        lines >= 1,
        columns != screen(*old(term)).columns || lines != screen(*old(term)).lines,
    ensures
        screen(*final(term)) == resized(*old(term), columns as int, lines as int),
        limit(*final(term)) == limit(*old(term)),
        tells(*final(term)) == tells(*old(term)),
        unheard(*final(term)) == unheard(*old(term)),
        screen(*final(term)).sound(),
        screen(*final(term)).history <= limit(*final(term)),
        screen(*final(term)).damage is None,
        screen(*final(term)).columns == columns,
        screen(*final(term)).lines == lines,
{
    term.resize(GridSize { columns: columns as usize, lines: lines as usize });
}

/// `Term::scroll_display`: scrolls the window up by so many lines, as far as
/// there are any, which damages all of it where it moves. What is selected stays
/// while vi mode is off. It tells of one thing, that the mouse cursor may look
/// different.
#[verifier::external_body]
fn scroll_term(term: &mut Term<SinkHandle>, delta: i32)
    requires
        screen(*old(term)).laid_out(),
        screen(*old(term)).offset <= i32::MAX,
        screen(*old(term)).offset + delta <= i32::MAX,
    ensures
        screen(*final(term)) == scrolled(screen(*old(term)), delta as int),
        limit(*final(term)) == limit(*old(term)),
        tells(*final(term)) == tells(*old(term)),
        unheard(*final(term)) == unheard(*old(term)).push(TermEventView::Other),
{
    term.scroll_display(Scroll::Delta(delta));
}

/// `Term::damage`: the lines of the window that changed, or `None` for all of
/// them.
#[verifier::external_body]
fn term_damage(term: &mut Term<SinkHandle>) -> (lines: Option<Vec<usize>>)
    requires
        screen(*old(term)).sound(),
    ensures
        match (lines, screen(*old(term)).damage) {
            (Some(a), Some(b)) => a@ == b,
            (None, None) => true,
            _ => false,
        },
        screen(*final(term)) == (ScreenView {
            damage: screen(*final(term)).damage,
            ..screen(*old(term))
        }),
        limit(*final(term)) == limit(*old(term)),
        tells(*final(term)) == tells(*old(term)),
        unheard(*final(term)) == unheard(*old(term)),
{
    match term.damage() {
        TermDamage::Full => None,
        TermDamage::Partial(lines) => Some(lines.map(|l| l.line).collect()),
    }
}

/// `Term::reset_damage`: forgets what changed.
#[verifier::external_body]
fn reset_damage(term: &mut Term<SinkHandle>)
    ensures
        screen(*final(term)) == (ScreenView {
            damage: screen(*final(term)).damage,
            ..screen(*old(term))
        }),
        limit(*final(term)) == limit(*old(term)),
        tells(*final(term)) == tells(*old(term)),
        unheard(*final(term)) == unheard(*old(term)),
{
    term.reset_damage();
}

/// `Grid::display_offset`: how many lines the window is scrolled up.
#[verifier::external_body]
fn display_offset(term: &Term<SinkHandle>) -> (n: usize)
    ensures
        n == screen(*term).offset,
{
    term.grid().display_offset()
}

/// `Dimensions::topmost_line`: the oldest line.
#[verifier::external_body]
fn topmost_line(term: &Term<SinkHandle>) -> (line: i32)
    requires
        screen(*term).laid_out(),
    ensures
        line == -screen(*term).history,
{
    term.grid().topmost_line().0
}

/// `Dimensions::bottommost_line`: the last line.
#[verifier::external_body]
fn bottommost_line(term: &Term<SinkHandle>) -> (line: i32)
    requires
        screen(*term).sound(),
    ensures
        line == screen(*term).lines - 1,
{
    term.grid().bottommost_line().0
}

/// `Dimensions::total_lines`: how many lines there are, on the screen and above.
#[verifier::external_body]
fn total_lines(term: &Term<SinkHandle>) -> (n: usize)
    requires
        screen(*term).sound(),
    ensures
        n == screen(*term).history + screen(*term).lines,
{
    term.grid().total_lines()
}

/// The grid's cursor: its line and column.
#[verifier::external_body]
fn cursor_point(term: &Term<SinkHandle>) -> (p: (i32, usize))
    requires
        screen(*term).sound(),
    ensures
        p.0 == screen(*term).cursor.0,
        p.1 == screen(*term).cursor.1,
{
    (term.grid().cursor.point.line.0, term.grid().cursor.point.column.0)
}

/// `Term::cursor_style`: the cursor's shape, and whether it blinks.
#[verifier::external_body]
fn cursor_style(term: &Term<SinkHandle>) -> (s: (SourceShape, bool))
    ensures
        s.0 == screen(*term).shape,
        s.1 == screen(*term).blinking,
{
    let style = term.cursor_style();
    let shape = match style.shape {
        GridShape::Block => SourceShape::Block,
        GridShape::Underline => SourceShape::Underline,
        GridShape::Beam => SourceShape::Beam,
        GridShape::HollowBlock => SourceShape::HollowBlock,
        GridShape::Hidden => SourceShape::Hidden,
    };
    (shape, style.blinking)
}

/// `Term::mode`: the modes' bits.
#[verifier::external_body]
fn mode_bits(term: &Term<SinkHandle>) -> (bits: u32)
    ensures
        bits == screen(*term).mode,
{
    term.mode().bits()
}

/// A cell of the grid. Reading one that is not there would panic.
#[verifier::external_body]
fn read_cell(term: &Term<SinkHandle>, line: i32, column: usize) -> (s: SourceCell)
    requires
        screen(*term).sound(),
        screen(*term).has((line, column)),
    ensures
        s@ == screen(*term).at(line as int, column as int),
{
    let plain = |c: GridColor| match c {
        GridColor::Named(n) => SourceColor::Named(n as u16),
        GridColor::Indexed(i) => SourceColor::Indexed(i),
        GridColor::Spec(rgb) => SourceColor::Rgb(rgb.r, rgb.g, rgb.b),
    };
    let cell = &term.grid()[Line(line)][Column(column)];
    let zerowidth = cell.zerowidth().unwrap_or_default().to_vec();
    let underline = cell.underline_color().map(plain);
    let hyperlink = cell.hyperlink().map(|link| link.uri().to_owned());
    let (c, fg, bg, flags) = (cell.c, plain(cell.fg), plain(cell.bg), cell.flags.bits());
    SourceCell { c, zerowidth, fg, bg, flags, underline, hyperlink }
}

/// `Selection::new` and `update`, held by the terminal: selects from the left of
/// one cell to the right of another, which gives a range inside the grid. A
/// rectangle in the last column, from a lower line to a higher one, would be
/// given a column that is not there.
#[verifier::external_body]
fn select(term: &mut Term<SinkHandle>, block: bool, start: (i32, usize), end: (i32, usize))
    requires
        screen(*old(term)).sound(),
        screen(*old(term)).has(start),
        screen(*old(term)).has(end),
        !(block && start.0 > end.0 && start.1 == end.1 && start.1 == screen(*old(term)).columns - 1),
    ensures
        screen(*final(term)) == (ScreenView {
            selected: selection_range(
                screen(*old(term)).columns,
                -screen(*old(term)).history,
                screen(*old(term)).lines - 1,
                block,
                start,
                end,
            ),
            ..screen(*old(term))
        }),
        screen(*final(term)).selected matches Some(r) ==> screen(*final(term)).holds(r),
        limit(*final(term)) == limit(*old(term)),
        tells(*final(term)) == tells(*old(term)),
        unheard(*final(term)) == unheard(*old(term)),
{
    let kind = if block { SelectionType::Block } else { SelectionType::Simple };
    let mut s = GridSelection::new(kind, GridPoint::new(Line(start.0), Column(start.1)), Side::Left);
    s.update(GridPoint::new(Line(end.0), Column(end.1)), Side::Right);
    term.selection = Some(s);
}

/// The terminal's `selection`, taken away.
#[verifier::external_body]
fn deselect(term: &mut Term<SinkHandle>)
    ensures
        screen(*final(term)) == (ScreenView { selected: None, ..screen(*old(term)) }),
        limit(*final(term)) == limit(*old(term)),
        tells(*final(term)) == tells(*old(term)),
        unheard(*final(term)) == unheard(*old(term)),
{
    term.selection = None;
}

/// `Selection::to_range`: the cells that are selected.
#[verifier::external_body]
fn selected_range(term: &Term<SinkHandle>) -> (r: Option<SelectedRange>)
    ensures
        r == screen(*term).selected,
{
    let selection = term.selection.as_ref()?;
    let range = selection.to_range(term)?;
    Some(SelectedRange {
        start: (range.start.line.0, range.start.column.0),
        end: (range.end.line.0, range.end.column.0),
        block: range.is_block,
    })
}

/// `Term::selection_to_string`: the text of what is selected. It reads outside
/// of the grid, subtracts from column 0, or reads above the oldest line, on the
/// ranges left out.
#[verifier::external_body]
fn selection_string(term: &Term<SinkHandle>) -> (text: Option<String>)
    requires
        screen(*term).sound(),
        screen(*term).selected matches Some(r) ==> screen(*term).holds(r) && copyable(
            screen(*term),
            r,
        ),
    ensures
        text is Some <==> screen(*term).selected is Some,
        match (text, selected_text(*term)) {
            (Some(a), Some(b)) => a@ == b,
            (None, None) => true,
            _ => false,
        },
{
    term.selection_to_string()
}

/// `Term::bounds_to_string`: the text from one cell to another, without the
/// blanks at a line's end. It subtracts from column 0, or reads above the oldest
/// line, on the ranges left out.
#[verifier::external_body]
fn bounds_string(term: &Term<SinkHandle>, start: (i32, usize), end: (i32, usize)) -> (text: String)
    requires
        screen(*term).sound(),
        screen(*term).has(start),
        screen(*term).has(end),
        start.0 <= end.0,
        copyable(screen(*term), (SelectedRange { start, end, block: false })),
    ensures
        text@ == text_between(*term, start, end),
{
    term.bounds_to_string(
        GridPoint::new(Line(start.0), Column(start.1)),
        GridPoint::new(Line(end.0), Column(end.1)),
    )
}

/// A terminal whose window is scrolled up by so many lines, as far as there are
/// any.
pub open spec fn scrolled(v: ScreenView, delta: int) -> ScreenView {
    let offset = held(v.offset + delta, 0, v.history);
    ScreenView {
        offset,
        damage: if offset == v.offset {
            v.damage
        } else {
            None
        },
        ..v
    }
}

/// Lines are numbered in 32 bits with a sign, so no more than this many are
/// kept.
pub const MAX_SCROLLBACK: u32 = 0x7FFE_0000;

/// Whether bytes are all ASCII.
pub open spec fn ascii(bytes: Seq<u8>) -> bool {
    forall|i: int| 0 <= i < bytes.len() ==> (#[trigger] bytes[i]) < 0x80
}

/// Where the text of a line starts in a range.
pub open spec fn line_start(r: SelectedRange, line: int) -> int {
    if r.block || line == r.start.0 {
        r.start.1 as int
    } else {
        0
    }
}

/// Whether a line starts with the second half of a wide character.
pub open spec fn starts_torn(v: ScreenView, line: int) -> bool {
    has_flag(v.at(line, 0).flags, SOURCE_SPACER)
}

/// Whether the oldest line ends in the gap before a wide character that wrapped.
pub open spec fn oldest_ends_in_gap(v: ScreenView) -> bool {
    has_flag(v.at(-v.history, v.columns - 1).flags, SOURCE_LEADING_SPACER)
}

/// Whether the text of a range can be read.
pub open spec fn copyable(v: ScreenView, r: SelectedRange) -> bool {
    &&& forall|line: int|
        r.start.0 <= line <= r.end.0 && line_start(r, line) == 0 ==> !(#[trigger] starts_torn(v, line))
    &&& r.start.0 == -v.history && r.end.1 == v.columns - 1 && oldest_ends_in_gap(v) ==> r.end.0
        != -v.history && (r.block ==> r.start.1 == 0)
}

/// Whether flags hold a bit.
pub open spec fn has_flag(flags: u16, bit: u16) -> bool {
    flags & bit == bit
}

/// A colour, as far as the theme leaves it to the cell: the terminal's own
/// foreground, background and the like are decided when the cell is drawn.
pub open spec fn color_of(c: SourceColor) -> ColorView {
    match c {
        SourceColor::Named(n) => if n < 256 {
            ColorView::Palette(n as u8)
        } else {
            ColorView::Default
        },
        SourceColor::Indexed(i) => ColorView::Palette(i),
        SourceColor::Rgb(r, g, b) => ColorView::Rgb(r, g, b),
    }
}

pub fn translate_color(color: SourceColor) -> (c: Color)
    ensures
        c@ == color_of(color),
        c.canonical(),
{
    match color {
        SourceColor::Named(n) => if n < 256 {
            Color::palette(n as u8)
        } else {
            Color::theme_default()
        },
        SourceColor::Indexed(i) => Color::palette(i),
        SourceColor::Rgb(r, g, b) => Color::rgb(r, g, b),
    }
}

/// The underline that flags name. There is one at most: the bits are a number,
/// not a set.
pub open spec fn underline_bits_of(flags: u16) -> u16 {
    if has_flag(flags, SOURCE_UNDERCURL) {
        UNDERLINE_CURLY_BITS
    } else if has_flag(flags, SOURCE_DOUBLE_UNDERLINE) {
        UNDERLINE_DOUBLE_BITS
    } else if has_flag(flags, SOURCE_DOTTED_UNDERLINE) {
        UNDERLINE_DOTTED_BITS
    } else if has_flag(flags, SOURCE_DASHED_UNDERLINE) {
        UNDERLINE_DASHED_BITS
    } else if has_flag(flags, SOURCE_UNDERLINE) {
        UNDERLINE_SINGLE_BITS
    } else {
        0
    }
}

/// A cell's flags, from those of the grid.
pub open spec fn flags_of(flags: u16) -> u16 {
    let a = with_bits(0, BOLD_BITS, has_flag(flags, SOURCE_BOLD));
    let b = with_bits(a, DIM_BITS, has_flag(flags, SOURCE_DIM));
    let c = with_bits(b, ITALIC_BITS, has_flag(flags, SOURCE_ITALIC));
    let d = with_bits(c, INVERSE_BITS, has_flag(flags, SOURCE_INVERSE));
    let e = with_bits(d, HIDDEN_BITS, has_flag(flags, SOURCE_HIDDEN));
    let f = with_bits(e, STRIKETHROUGH_BITS, has_flag(flags, SOURCE_STRIKEOUT));
    let g = with_bits(
        f,
        WIDE_SPACER_BITS,
        has_flag(flags, SOURCE_SPACER) || has_flag(flags, SOURCE_LEADING_SPACER),
    );
    g | underline_bits_of(flags)
}

pub fn translate_flags(flags: u16) -> (f: CellFlags)
    ensures
        f@ == flags_of(flags),
{
    let mut out = CellFlags::empty();
    out.set(CellFlags::bold(), flags & SOURCE_BOLD == SOURCE_BOLD);
    out.set(CellFlags::dim(), flags & SOURCE_DIM == SOURCE_DIM);
    out.set(CellFlags::italic(), flags & SOURCE_ITALIC == SOURCE_ITALIC);
    out.set(CellFlags::inverse(), flags & SOURCE_INVERSE == SOURCE_INVERSE);
    out.set(CellFlags::hidden(), flags & SOURCE_HIDDEN == SOURCE_HIDDEN);
    out.set(CellFlags::strikethrough(), flags & SOURCE_STRIKEOUT == SOURCE_STRIKEOUT);
    out.set(
        CellFlags::wide_spacer(),
        flags & SOURCE_SPACER == SOURCE_SPACER || flags & SOURCE_LEADING_SPACER
            == SOURCE_LEADING_SPACER,
    );
    let underline = if flags & SOURCE_UNDERCURL == SOURCE_UNDERCURL {
        CellFlags::underline_curly()
    } else if flags & SOURCE_DOUBLE_UNDERLINE == SOURCE_DOUBLE_UNDERLINE {
        CellFlags::underline_double()
    } else if flags & SOURCE_DOTTED_UNDERLINE == SOURCE_DOTTED_UNDERLINE {
        CellFlags::underline_dotted()
    } else if flags & SOURCE_DASHED_UNDERLINE == SOURCE_DASHED_UNDERLINE {
        CellFlags::underline_dashed()
    } else if flags & SOURCE_UNDERLINE == SOURCE_UNDERLINE {
        CellFlags::underline_single()
    } else {
        CellFlags::empty()
    };
    out.union(underline)
}

/// What the side tables hold.
#[verifier::ext_equal]
pub struct TablesView {
    pub graphemes: Seq<Seq<char>>,
    pub extras: Seq<Extras>,
    pub hyperlinks: Seq<Seq<char>>,
}

/// What side tables hold.
pub open spec fn tables_view(t: SideTables) -> TablesView {
    TablesView { graphemes: t.graphemes@, extras: t.extras@, hyperlinks: t.hyperlinks@ }
}

/// Whether a table only gained entries.
pub open spec fn grew<T>(before: Seq<T>, after: Seq<T>) -> bool {
    before.len() <= after.len() && forall|i: int|
        0 <= i < before.len() ==> #[trigger] after[i] == before[i]
}

/// Whether tables only gained entries.
pub open spec fn tables_grew(before: TablesView, after: TablesView) -> bool {
    &&& grew(before.graphemes, after.graphemes)
    &&& grew(before.extras, after.extras)
    &&& grew(before.hyperlinks, after.hyperlinks)
}

/// Whether a cell needs no side table.
pub open spec fn plain(s: SourceView) -> bool {
    s.zerowidth.len() == 0 && s.underline is None && s.hyperlink is None
}

/// Whether a cell's content is that of the grid's. A cluster stands in one cell;
/// its text is in a table. Where the table is full, the first character alone
/// is kept.
pub open spec fn content_shows(content: ContentView, s: SourceView, t: TablesView) -> bool {
    if s.zerowidth.len() == 0 {
        content == ContentView::Scalar(s.c)
    } else {
        match content {
            ContentView::Cluster(i) => i < t.graphemes.len() && t.graphemes[i as int] == seq![s.c]
                + s.zerowidth,
            ContentView::Scalar(c) => c == s.c && t.graphemes.len() >= CLUSTER_TAG,
            ContentView::Unassigned(_) => false,
        }
    }
}

/// Whether extras are those of the grid's cell.
pub open spec fn extras_show(e: Extras, s: SourceView, links: Seq<Seq<char>>) -> bool {
    &&& match (e.underline_color, s.underline) {
        (Some(c), Some(u)) => c@ == color_of(u) && c.canonical(),
        (None, None) => true,
        _ => false,
    }
    &&& match (e.hyperlink, s.hyperlink) {
        (Some(id), Some(uri)) => id < links.len() && links[id as int] == uri,
        (None, Some(_)) => links.len() >= u32::MAX,
        (None, None) => true,
        _ => false,
    }
}

/// Whether a cell's extras are those of the grid's. Where a table is full, they
/// are left out.
pub open spec fn extra_shows(extra: u32, s: SourceView, t: TablesView) -> bool {
    if s.underline is None && s.hyperlink is None {
        extra == NO_EXTRA
    } else if extra == NO_EXTRA {
        t.extras.len() >= u32::MAX || (s.underline is None && t.hyperlinks.len() >= u32::MAX)
    } else {
        extra <= t.extras.len() && extras_show(t.extras[extra - 1], s, t.hyperlinks)
    }
}

/// Whether a cell shows a cell of the grid, with what the tables hold.
pub open spec fn shows(cell: Cell, s: SourceView, t: TablesView) -> bool {
    &&& content_shows(cell.content@, s, t)
    &&& extra_shows(cell.extra, s, t)
    &&& cell.fg@ == color_of(s.fg)
    &&& cell.bg@ == color_of(s.bg)
    &&& cell.flags@ == flags_of(s.flags)
    &&& cell.width == if has_flag(s.flags, SOURCE_WIDE) {
        2u8
    } else {
        1u8
    }
}

/// A cell goes on showing what it shows while the tables grow.
pub proof fn law_cells_outlive_table_growth(
    cell: Cell,
    s: SourceView,
    before: TablesView,
    after: TablesView,
)
    requires
        shows(cell, s, before),
        tables_grew(before, after),
    ensures
        shows(cell, s, after),
{
}

/// Turns a cell of the grid into one of the library's. What almost no cell has
/// goes to the side tables, and only where there is something to store.
pub fn translate_cell(src: &SourceCell, tables: &mut SideTables) -> (cell: Cell)
    requires
        old(tables).wf(),
    ensures
        final(tables).wf(),
        tables_grew(tables_view(*old(tables)), tables_view(*final(tables))),
        plain(src@) ==> *final(tables) == *old(tables),
        shows(cell, src@, tables_view(*final(tables))),
{
    let ghost before = tables_view(*tables);
    let content = if src.zerowidth.len() > 0 {
        if tables.graphemes.len() < CLUSTER_TAG as usize {
            let mut cluster: Vec<char> = Vec::new();
            cluster.push(src.c);
            let n: usize = src.zerowidth.len();
            let mut i: usize = 0;
            while i < n
                invariant
                    i <= n == src.zerowidth@.len(),
                    cluster@ == seq![src.c] + src.zerowidth@.take(i as int),
                decreases n - i,
            {
                cluster.push(src.zerowidth[i]);
                i += 1;
                assert(cluster@ =~= seq![src.c] + src.zerowidth@.take(i as int));
            }
            assert(src.zerowidth@.take(n as int) =~= src.zerowidth@);
            let m: usize = cluster.len();
            let text = string_of(&cluster, 0, m);
            assert(text@ =~= seq![src.c] + src.zerowidth@);
            let id: u32 = tables.graphemes.intern(text.as_str());
            if id < CLUSTER_TAG {
                CellContent::cluster(id)
            } else {
                CellContent::scalar(src.c)
            }
        } else {
            CellContent::scalar(src.c)
        }
    } else {
        CellContent::scalar(src.c)
    };
    let ghost middle = tables_view(*tables);
    assert(grew(before.graphemes, middle.graphemes));
    let underline: Option<Color> = match src.underline {
        Some(u) => Some(translate_color(u)),
        None => None,
    };
    let link: Option<u32> = match &src.hyperlink {
        Some(uri) => if tables.hyperlinks.len() < u32::MAX as usize {
            Some(tables.hyperlinks.intern(uri.as_str()))
        } else {
            None
        },
        None => None,
    };
    let ghost linked = tables_view(*tables);
    assert(grew(middle.hyperlinks, linked.hyperlinks));
    let extras = Extras { underline_color: underline, hyperlink: link };
    let extra: u32 = if extras.is_empty() || tables.extras.len() >= u32::MAX as usize {
        NO_EXTRA
    } else {
        tables.extras.intern(extras)
    };
    Cell::build(
        content,
        translate_color(src.fg),
        translate_color(src.bg),
        extra,
        translate_flags(src.flags),
        if src.flags & SOURCE_WIDE == SOURCE_WIDE {
            2
        } else {
            1
        },
    )
}

/// Whether a row of cells shows a line of the window.
pub open spec fn row_shows(cells: Seq<Cell>, v: ScreenView, line: int, t: TablesView) -> bool {
    &&& cells.len() == v.columns
    &&& forall|c: int|
        0 <= c < cells.len() ==> shows(#[trigger] cells[c], v.at(line - v.offset, c), t)
}

/// Whether a line of the window goes on in the next.
pub open spec fn row_wraps(v: ScreenView, line: int) -> bool {
    exists|c: int|
        0 <= c < v.columns && has_flag((#[trigger] v.at(line - v.offset, c)).flags, SOURCE_WRAPLINE)
}

/// Whether a line of the window needs no side table.
pub open spec fn row_plain(v: ScreenView, line: int) -> bool {
    forall|c: int| 0 <= c < v.columns ==> plain(#[trigger] v.at(line - v.offset, c))
}

/// The lines to look at: those that changed, or all.
pub open spec fn damaged_lines(v: ScreenView) -> Seq<usize> {
    match v.damage {
        Some(lines) => lines,
        None => Seq::new(v.lines as nat, |i: int| i as usize),
    }
}

/// A mirror with the first `n` of some lines put in. Lines below the window are
/// passed over.
pub open spec fn put_lines(
    m: MirrorView,
    v: ScreenView,
    lines: Seq<usize>,
    rows: Seq<Seq<Cell>>,
    n: int,
) -> MirrorView
    decreases n,
{
    if n <= 0 {
        m
    } else {
        let before = put_lines(m, v, lines, rows, n - 1);
        if lines[n - 1] < v.lines {
            with_row(before, lines[n - 1] as int, rows[n - 1], row_wraps(v, lines[n - 1] as int))
        } else {
            before
        }
    }
}

/// Whether rows show lines of the window, as far as they are in it.
pub open spec fn lines_show(
    v: ScreenView,
    lines: Seq<usize>,
    rows: Seq<Seq<Cell>>,
    t: TablesView,
    n: int,
) -> bool {
    &&& rows.len() == n
    &&& forall|i: int|
        0 <= i < n && lines[i] < v.lines ==> row_shows(#[trigger] rows[i], v, lines[i] as int, t)
}

/// Whether a mirror has taken over what changed in the window.
pub open spec fn synced(before: MirrorView, v: ScreenView, t: TablesView, after: MirrorView) -> bool {
    exists|rows: Seq<Seq<Cell>>| #[trigger]
        lines_show(v, damaged_lines(v), rows, t, damaged_lines(v).len() as int) && after
            == put_lines(before, v, damaged_lines(v), rows, damaged_lines(v).len() as int)
}

/// Whether nothing that changed needs a side table.
pub open spec fn all_plain(v: ScreenView) -> bool {
    forall|i: int|
        0 <= i < damaged_lines(v).len() && damaged_lines(v)[i] < v.lines ==> row_plain(
            v,
            (#[trigger] damaged_lines(v)[i]) as int,
        )
}

/// What a terminal said that was not asked for yet.
#[verifier::ext_equal]
pub struct SinkView {
    pub replies: Seq<u8>,
    pub events: Seq<EventView>,
    pub title: Option<Seq<char>>,
}

/// After one more event.
pub open spec fn after_event(s: SinkView, e: TermEventView) -> SinkView {
    match e {
        TermEventView::Reply(text) => SinkView {
            replies: s.replies + encode_utf8(text),
            ..s
        },
        TermEventView::Title(title) => SinkView {
            title: Some(title),
            events: s.events.push(EventView::Title(title)),
            ..s
        },
        TermEventView::ResetTitle => SinkView {
            title: Some(Seq::empty()),
            events: s.events.push(EventView::Title(Seq::empty())),
            ..s
        },
        TermEventView::Clipboard(text) => SinkView {
            events: s.events.push(EventView::ClipboardWrite(text)),
            ..s
        },
        TermEventView::Bell => SinkView { events: s.events.push(EventView::Bell), ..s },
        TermEventView::Other => s,
    }
}

/// After the first `n` events.
pub open spec fn after_events(s: SinkView, events: Seq<TermEventView>, n: int) -> SinkView
    decreases n,
{
    if n <= 0 {
        s
    } else {
        after_event(after_events(s, events, n - 1), events[n - 1])
    }
}

/// The first `n` events say the same wherever they stand.
proof fn lemma_same_events(s: SinkView, a: Seq<TermEventView>, b: Seq<TermEventView>, n: int)
    requires
        n <= a.len(),
        n <= b.len(),
        forall|i: int| 0 <= i < n ==> a[i] == b[i],
    ensures
        after_events(s, a, n) == after_events(s, b, n),
    decreases n,
{
    if n > 0 {
        lemma_same_events(s, a, b, n - 1);
    }
}

/// What the terminal said that was not asked for yet.
pub struct Sink {
    replies: Vec<u8>,
    events: Vec<SemanticEvent>,
    title: Option<String>,
}

impl View for Sink {
    type V = SinkView;

    closed spec fn view(&self) -> SinkView {
        SinkView {
            replies: self.replies@,
            events: event_views(self.events@),
            title: text_view(self.title),
        }
    }
}

impl Sink {
    pub fn new() -> (s: Sink)
        ensures
            s@ == (SinkView { replies: Seq::empty(), events: Seq::empty(), title: None }),
    {
        let s = Sink { replies: Vec::new(), events: Vec::new(), title: None };
        assert(s@.events =~= Seq::empty());
        s
    }

    /// Takes in one event.
    pub fn absorb(&mut self, event: TermEvent)
        ensures
            final(self)@ == after_event(old(self)@, event@),
    {
        match event {
            TermEvent::Reply(text) => {
                let bytes = text.as_str().as_bytes();
                let n: usize = bytes.len();
                let mut i: usize = 0;
                assert(self@.replies =~= old(self)@.replies + bytes@.take(0));
                while i < n
                    invariant
                        i <= n == bytes@.len(),
                        self.events == old(self).events,
                        self.title == old(self).title,
                        self@.replies == old(self)@.replies + bytes@.take(i as int),
                    decreases n - i,
                {
                    self.replies.push(bytes[i]);
                    i += 1;
                    assert(self@.replies =~= old(self)@.replies + bytes@.take(i as int));
                }
                assert(bytes@.take(n as int) =~= bytes@);
            },
            TermEvent::Title(title) => {
                self.title = Some(title.as_str().to_owned());
                self.push(SemanticEvent::Title(title));
            },
            TermEvent::ResetTitle => {
                self.title = Some(String::new());
                self.push(SemanticEvent::Title(String::new()));
                assert(self@.title->0 =~= Seq::empty());
                assert(self@.events.last()->Title_0 =~= Seq::empty());
                assert(self@.events =~= old(self)@.events.push(EventView::Title(Seq::empty())));
            },
            TermEvent::Clipboard(text) => {
                self.push(SemanticEvent::ClipboardWrite(text));
            },
            TermEvent::Bell => {
                self.push(SemanticEvent::Bell);
            },
            TermEvent::Other => {},
        }
        assert(self@ =~= after_event(old(self)@, event@));
    }

    fn push(&mut self, event: SemanticEvent)
        ensures
            final(self).replies == old(self).replies,
            final(self).title == old(self).title,
            final(self)@.events == old(self)@.events.push(event@),
    {
        self.events.push(event);
        assert(self@.events =~= old(self)@.events.push(event@));
    }
}

/// The cursor as it is seen, from where it is and how far the window is scrolled
/// up.
pub open spec fn cursor_of(v: ScreenView) -> CursorState {
    let line = v.cursor.0 + v.offset;
    CursorState {
        line: held(line, 0, 65535) as u16,
        column: v.cursor.1 as u16,
        shape: match v.shape {
            SourceShape::Underline => CursorShape::Underline,
            SourceShape::Beam => CursorShape::Bar,
            _ => CursorShape::Block,
        },
        visible: v.mode & MODE_SHOW_CURSOR != 0 && !(v.shape is Hidden) && line >= 0,
        blinking: v.blinking,
    }
}

/// What the child asked of its input.
pub open spec fn modes_of(mode: u32) -> TermModes {
    let tracking = if mode & MODE_MOUSE_MOTION != 0 {
        MouseTracking::Motion
    } else if mode & MODE_MOUSE_DRAG != 0 {
        MouseTracking::Drag
    } else if mode & MODE_MOUSE_CLICK != 0 {
        MouseTracking::Click
    } else {
        MouseTracking::Off
    };
    TermModes {
        bracketed_paste: mode & MODE_BRACKETED_PASTE != 0,
        mouse_reporting: !(tracking is Off),
        mouse_tracking: tracking,
        mouse_encoding: if mode & MODE_SGR_MOUSE != 0 {
            MouseEncoding::Sgr
        } else if mode & MODE_UTF8_MOUSE != 0 {
            MouseEncoding::Utf8
        } else {
            MouseEncoding::Legacy
        },
        focus_reporting: mode & MODE_FOCUS != 0,
    }
}

/// Reads the modes' bits.
pub fn translate_modes(mode: u32) -> (m: TermModes)
    ensures
        m == modes_of(mode),
{
    let tracking = if mode & MODE_MOUSE_MOTION != 0 {
        MouseTracking::Motion
    } else if mode & MODE_MOUSE_DRAG != 0 {
        MouseTracking::Drag
    } else if mode & MODE_MOUSE_CLICK != 0 {
        MouseTracking::Click
    } else {
        MouseTracking::Off
    };
    let reporting = match tracking {
        MouseTracking::Off => false,
        _ => true,
    };
    TermModes {
        bracketed_paste: mode & MODE_BRACKETED_PASTE != 0,
        mouse_reporting: reporting,
        mouse_tracking: tracking,
        mouse_encoding: if mode & MODE_SGR_MOUSE != 0 {
            MouseEncoding::Sgr
        } else if mode & MODE_UTF8_MOUSE != 0 {
            MouseEncoding::Utf8
        } else {
            MouseEncoding::Legacy
        },
        focus_reporting: mode & MODE_FOCUS != 0,
    }
}

/// A place of the window as one of the grid: moved inside what the terminal
/// holds, so that a selection can reach from its oldest line to its last. Below
/// the last line is its last column.
pub open spec fn grid_place(v: ScreenView, p: Point) -> (i32, usize) {
    (
        held(p.line - v.offset, -v.history, v.lines - 1) as i32,
        (if p.column < v.columns && p.line - v.offset < v.lines {
            p.column as int
        } else {
            v.columns - 1
        }) as usize,
    )
}

/// The two places that a selection is made between. A rectangle in the last
/// column is made from its upper end.
pub open spec fn selection_ends(v: ScreenView, s: Selection) -> ((i32, usize), (i32, usize)) {
    let a = grid_place(v, s.start);
    let b = grid_place(v, s.end);
    if s.kind is Block && a.0 > b.0 && a.1 == b.1 && a.1 == v.columns - 1 {
        (b, a)
    } else {
        (a, b)
    }
}

/// A selected range as places of the window. One that has left the grid selects
/// nothing.
pub open spec fn selection_of(v: ScreenView) -> Option<Selection> {
    match v.selected {
        Some(r) => if v.holds(r) {
            Some(
                Selection {
                    start: Point {
                        line: (r.start.0 + v.offset) as i32,
                        column: r.start.1 as u16,
                    },
                    end: Point { line: (r.end.0 + v.offset) as i32, column: r.end.1 as u16 },
                    kind: if r.block {
                        SelectionKind::Block
                    } else {
                        SelectionKind::Simple
                    },
                },
            )
        } else {
            None
        },
        None => None,
    }
}

/// Whether the text of what is selected can be read: both ends of it are inside
/// the grid, and no wide character is torn at its edge.
pub open spec fn can_be_copied(v: ScreenView) -> bool {
    v.selected matches Some(r) && v.holds(r) && copyable(v, r)
}

/// The text of a line without torn or missing halves at its ends: the place that
/// it starts at and the place that it ends at.
pub open spec fn line_bounds_of(v: ScreenView, line: int) -> (int, int) {
    (
        if starts_torn(v, line) {
            1
        } else {
            0
        },
        if line == -v.history && oldest_ends_in_gap(v) {
            v.columns - 2
        } else {
            v.columns - 1
        },
    )
}

/// The text of a cell: nothing for the second half of a wide character.
pub open spec fn cell_text(c: Cell, t: TablesView) -> Seq<char> {
    if c.flags@ & WIDE_SPACER_BITS == WIDE_SPACER_BITS {
        Seq::empty()
    } else {
        match c.content@ {
            ContentView::Scalar(ch) => seq![ch],
            ContentView::Cluster(i) => if i < t.graphemes.len() {
                t.graphemes[i as int]
            } else {
                Seq::empty()
            },
            ContentView::Unassigned(_) => Seq::empty(),
        }
    }
}

/// The text of the first `n` cells of a row.
pub open spec fn cells_text(cells: Seq<Cell>, t: TablesView, n: int) -> Seq<char>
    decreases n,
{
    if n <= 0 {
        Seq::empty()
    } else {
        cells_text(cells, t, n - 1) + cell_text(cells[n - 1], t)
    }
}

/// The text of the first `n` rows, each with a line feed at its end.
pub open spec fn rows_text(rows: Seq<Seq<Cell>>, t: TablesView, n: int) -> Seq<char>
    decreases n,
{
    if n <= 0 {
        Seq::empty()
    } else {
        rows_text(rows, t, n - 1) + cells_text(rows[n - 1], t, rows[n - 1].len() as int).push('\n')
    }
}

/// The target of the hyperlink that a cell carries.
pub open spec fn link_of(c: Cell, t: TablesView) -> Option<Seq<char>> {
    if 1 <= c.extra <= t.extras.len() {
        match t.extras[c.extra - 1].hyperlink {
            Some(id) => if id < t.hyperlinks.len() {
                Some(t.hyperlinks[id as int])
            } else {
                None
            },
            None => None,
        }
    } else {
        None
    }
}

/// What a terminal and its mirror hold.
#[verifier::ext_equal]
pub struct CoreView {
    pub screen: ScreenView,
    pub mirror: MirrorView,
    pub tables: TablesView,
    pub sniffer: SnifferView,
    pub sink: SinkView,
    /// All bytes that it has been handed. A sequence that they break off in goes
    /// on with the next ones.
    pub stream: Seq<u8>,
    /// How many lines are kept above the screen, at most.
    pub keeps: nat,
}

/// A mirror with every row dirty.
pub open spec fn all_dirty(m: MirrorView) -> MirrorView {
    MirrorView { dirty: Seq::new(m.rows.len(), |r: int| true), ..m }
}

/// Whether a mirror has taken over what changed in the window, with every row
/// dirty.
pub open spec fn taken_over(before: MirrorView, v: ScreenView, t: TablesView, after: MirrorView) -> bool {
    exists|m: MirrorView| #[trigger] synced(before, v, t, m) && after == all_dirty(m)
}

fn hold(v: i64, low: i64, high: i64) -> (h: i64)
    ensures
        h == held(v as int, low as int, high as int),
{
    if v < low {
        low
    } else if v > high {
        high
    } else {
        v
    }
}

/// A terminal.
pub struct AlacrittyCore {
    term: Term<SinkHandle>,
    parser: VtParser,
    events: Receiver<Event>,
    sink: Sink,
    sniffer: OscSniffer,
    mirror: Mirror,
    tables: SideTables,
}

/// The terminal that the window uses.
pub type Backend = AlacrittyCore;

impl View for AlacrittyCore {
    type V = CoreView;

    closed spec fn view(&self) -> CoreView {
        CoreView {
            screen: screen(self.term),
            mirror: self.mirror@,
            tables: tables_view(self.tables),
            sniffer: self.sniffer@,
            sink: self.sink@,
            stream: heard(self.parser),
            keeps: limit(self.term),
        }
    }
}

/// What a fresh terminal holds.
pub open spec fn fresh_core(cols: u16, rows: u16, scrollback: u32) -> CoreView {
    CoreView {
        screen: fresh_screen(cols as int, rows as int),
        mirror: blank_mirror(cols as nat, rows as nat),
        tables: TablesView {
            graphemes: Seq::empty(),
            extras: Seq::empty(),
            hyperlinks: Seq::empty(),
        },
        sniffer: fresh_sniffer(),
        sink: SinkView { replies: Seq::empty(), events: Seq::empty(), title: None },
        stream: Seq::empty(),
        keeps: scrollback as nat,
    }
}

/// What a terminal holds once that is selected.
pub open spec fn selecting(c: CoreView, selection: Option<Selection>) -> CoreView {
    CoreView {
        screen: ScreenView {
            selected: match selection {
                Some(s) => selection_range(
                    c.screen.columns,
                    -c.screen.history,
                    c.screen.lines - 1,
                    s.kind is Block,
                    selection_ends(c.screen, s).0,
                    selection_ends(c.screen, s).1,
                ),
                None => None,
            },
            ..c.screen
        },
        mirror: all_dirty(c.mirror),
        ..c
    }
}

/// Whether a terminal turned into another by taking in bytes. A window that was
/// carried past the oldest line comes back to it.
pub open spec fn wrote(a: AlacrittyCore, b: AlacrittyCore, bytes: Seq<u8>) -> bool {
    if bytes.len() == 0 {
        b == a
    } else {
        let v = scrolled(a.once_written(bytes), 0);
        &&& b@.sniffer == sniff(a@.sniffer, bytes)
        &&& b@.screen == (ScreenView { damage: b@.screen.damage, ..v })
        &&& b@.screen.columns == a@.screen.columns
        &&& b@.screen.lines == a@.screen.lines
        &&& tables_grew(a@.tables, b@.tables)
        &&& all_plain(v) ==> b.stored() == a.stored()
        &&& synced(a@.mirror, v, b@.tables, b@.mirror)
        &&& b@.sink == after_events(
            a@.sink,
            a.once_spoken(bytes),
            a.once_spoken(bytes).len() as int,
        )
        &&& b@.stream == a@.stream + bytes
        &&& b@.keeps == a@.keeps
    }
}

/// Whether a terminal turned into another by taking on a size.
pub open spec fn reshaped(a: AlacrittyCore, b: AlacrittyCore, cols: u16, rows: u16) -> bool {
    if at_least_one(cols) == a@.mirror.cols && at_least_one(rows) == a@.mirror.rows.len() {
        b == a
    } else {
        let v = a.once_resized(cols as int, at_least_one(rows) as int);
        &&& b@.screen == (ScreenView { damage: b@.screen.damage, ..v })
        &&& b@.screen.columns == cols
        &&& b@.screen.lines == at_least_one(rows)
        &&& b@.sniffer == a@.sniffer
        &&& tables_grew(a@.tables, b@.tables)
        &&& v.damage is None
        &&& taken_over(
            blank_mirror(cols as nat, at_least_one(rows) as nat),
            v,
            b@.tables,
            b@.mirror,
        )
        &&& b@.sink == a@.sink
        &&& b@.stream == a@.stream
        &&& b@.keeps == a@.keeps
    }
}

/// Whether a terminal turned into another by moving its window that many lines
/// up.
pub open spec fn moved(a: AlacrittyCore, b: AlacrittyCore, delta: int) -> bool {
    if delta == 0 {
        b == a
    } else {
        let v = scrolled(a@.screen, delta);
        &&& b@.screen == (ScreenView { damage: b@.screen.damage, ..v })
        &&& b@.sniffer == a@.sniffer
        &&& tables_grew(a@.tables, b@.tables)
        &&& taken_over(a@.mirror, v, b@.tables, b@.mirror)
        &&& b@.sink == a@.sink
        &&& b@.stream == a@.stream
        &&& b@.keeps == a@.keeps
    }
}

impl AlacrittyCore {
    pub closed spec fn wf(self) -> bool {
        &&& self.shaped()
        &&& unheard(self.term).len() == 0
    }

    /// Valid, but for what the terminal may have told.
    spec fn shaped(self) -> bool {
        &&& empties(self.events) == tells(self.term)
        &&& self.mirror.wf()
        &&& self.tables.wf()
        &&& screen(self.term).sound()
        &&& screen(self.term).history <= limit(self.term) <= MAX_SCROLLBACK
        &&& self.mirror@.cols == screen(self.term).columns
        &&& self.mirror@.rows.len() == screen(self.term).lines
    }

    /// What a valid terminal is like.
    pub proof fn lemma_wf_shape(self)
        requires
            self.wf(),
        ensures
            self@.screen.sound(),
            self@.screen.history <= self@.keeps <= MAX_SCROLLBACK,
            self@.mirror.cols == self@.screen.columns,
            self@.mirror.rows.len() == self@.screen.lines,
            rectangular(self@.mirror),
    {
        self.mirror.law_rectangular();
    }

    /// What the terminal will hold once it has been handed bytes.
    pub closed spec fn once_written(self, bytes: Seq<u8>) -> ScreenView {
        written(self.parser, self.term, bytes)
    }

    /// What the terminal will tell while it is handed bytes.
    pub closed spec fn once_spoken(self, bytes: Seq<u8>) -> Seq<TermEventView> {
        spoken(self.parser, self.term, bytes)
    }

    /// What the terminal will hold once it has been resized.
    pub closed spec fn once_resized(self, columns: int, lines: int) -> ScreenView {
        resized(self.term, columns, lines)
    }

    /// The text that is selected.
    pub closed spec fn copied(self) -> Option<Seq<char>> {
        selected_text(self.term)
    }

    /// The text between two places of the grid.
    pub closed spec fn text_from(self, start: (i32, usize), end: (i32, usize)) -> Seq<char> {
        text_between(self.term, start, end)
    }

    /// The side tables themselves.
    pub closed spec fn stored(self) -> SideTables {
        self.tables
    }

    /// A terminal of at least one column and one row.
    pub fn new(cols: u16, rows: u16, scrollback: u32) -> (core: AlacrittyCore)
        requires
            scrollback <= MAX_SCROLLBACK,
        ensures
            core.wf(),
            core.stored().untouched(),
            core@ == fresh_core(at_least_one(cols), at_least_one(rows), scrollback),
    {
        assert(MODE_DEFAULT & MODE_VI == 0) by (bit_vector);
        let columns: u16 = if cols == 0 {
            1
        } else {
            cols
        };
        let lines: u16 = if rows == 0 {
            1
        } else {
            rows
        };
        let (term, rx) = new_term(columns, lines, scrollback);
        AlacrittyCore {
            term,
            parser: new_parser(),
            events: rx,
            sink: Sink::new(),
            sniffer: OscSniffer::new(),
            mirror: Mirror::new(cols, rows),
            tables: SideTables::new(),
        }
    }

    /// Hands bytes from the child to the terminal. The sniffer sees them first.
    /// Without any, nothing happens: an idle terminal wakes nobody.
    pub fn write(&mut self, bytes: &[u8])
        requires
            old(self).wf(),
            old(self)@.screen.columns >= 2 || ascii(bytes@),
        ensures
            final(self).wf(),
            wrote(*old(self), *final(self), bytes@),
            bytes@.len() == 0 ==> *final(self) == *old(self),
    {
        if bytes.len() == 0 {
            return;
        }
        let ghost said = self.once_spoken(bytes@);
        self.sniffer.feed(bytes);
        advance(&mut self.parser, &mut self.term, bytes);
        let offset: usize = display_offset(&self.term);
        let top: i32 = topmost_line(&self.term);
        assert(unheard(self.term) =~= said);
        if offset as i64 > -(top as i64) {
            scroll_term(&mut self.term, 0);
            proof {
                lemma_same_events(
                    self@.sink,
                    said,
                    said.push(TermEventView::Other),
                    said.len() as int,
                );
            }
        }
        assert(screen(self.term) == scrolled(old(self).once_written(bytes@), 0));
        self.sync_damage();
        self.absorb();
    }

    /// Reshapes the terminal, unless it has that size. Reflow may have moved
    /// every row, so all of them are dirty.
    pub fn resize(&mut self, cols: u16, rows: u16)
        requires
            old(self).wf(),
            cols >= 2 || (at_least_one(cols) == old(self)@.mirror.cols && at_least_one(rows)
                == old(self)@.mirror.rows.len()),
        ensures
            final(self).wf(),
            reshaped(*old(self), *final(self), cols, rows),
    {
        let lines: u16 = if rows == 0 {
            1
        } else {
            rows
        };
        let columns: u16 = if cols == 0 {
            1
        } else {
            cols
        };
        let (had_cols, had_rows) = self.mirror.dimensions();
        if had_cols == columns && had_rows == lines {
            return;
        }
        resize_term(&mut self.term, columns, lines);
        self.mirror.resize(columns, lines);
        let ghost v = self@.screen;
        let ghost blank = self@.mirror;
        self.sync_damage();
        let ghost m = self@.mirror;
        let ghost t = self@.tables;
        self.mirror.damage_all();
        assert(taken_over(blank, v, t, self@.mirror)) by {
            assert(synced(blank, v, t, m));
        }
        self.absorb();
    }

    /// Scrolls the window up by so many lines, or down. Every row that is seen
    /// moves, so all of them are dirty, even where two lines are alike.
    pub fn scroll_viewport(&mut self, delta: i32)
        requires
            old(self).wf(),
        ensures
            final(self).wf(),
            moved(*old(self), *final(self), delta as int),
    {
        if delta == 0 {
            return;
        }
        let offset: usize = display_offset(&self.term);
        let most: i32 = i32::MAX - offset as i32;
        let by: i32 = if delta > most {
            most
        } else {
            delta
        };
        assert(scrolled(screen(self.term), by as int) == scrolled(
            screen(self.term),
            delta as int,
        ));
        scroll_term(&mut self.term, by);
        let ghost v = self@.screen;
        let ghost had = self@.mirror;
        self.sync_damage();
        let ghost m = self@.mirror;
        let ghost t = self@.tables;
        self.mirror.damage_all();
        assert(taken_over(had, v, t, self@.mirror)) by {
            assert(synced(had, v, t, m));
        }
        proof {
            // That the mouse cursor may look different is no news here.
            reveal_with_fuel(after_events, 2);
            assert(unheard(self.term).len() == 1);
        }
        self.absorb();
    }

    /// Columns and rows.
    pub fn dimensions(&self) -> (d: (u16, u16))
        requires
            self.wf(),
        ensures
            d.0 == self@.mirror.cols,
            d.1 == self@.mirror.rows.len(),
    {
        self.mirror.dimensions()
    }

    /// The dirty rows, top to bottom.
    pub fn dirty_rows(&self) -> (rows: Vec<RowRef<'_>>)
        requires
            self.wf(),
        ensures
            rows@.len() == count_true(self@.mirror.dirty),
            forall|k: int|
                #![trigger rows@[k]]
                0 <= k < rows@.len() ==> {
                    let r = rows@[k];
                    &&& r.index < self@.mirror.rows.len()
                    &&& self@.mirror.dirty[r.index as int]
                    &&& r.cells@ == self@.mirror.rows[r.index as int]
                    &&& r.wrapped == self@.mirror.wrapped[r.index as int]
                },
            forall|j: int, k: int| 0 <= j < k < rows@.len() ==> rows@[j].index < rows@[k].index,
            forall|i: int|
                0 <= i < self@.mirror.rows.len() && #[trigger] self@.mirror.dirty[i] ==> exists|
                    k: int,
                |
                    0 <= k < rows@.len() && #[trigger] rows@[k].index == i,
    {
        self.mirror.dirty_rows()
    }

    pub fn has_damage(&self) -> (yes: bool)
        requires
            self.wf(),
        ensures
            yes == exists|r: int| 0 <= r < self@.mirror.rows.len() && self@.mirror.dirty[r],
    {
        let yes = self.mirror.has_damage();
        proof {
            if yes {
                let r = choose|r: int| 0 <= r < self.mirror@.rows.len() && self.mirror@.dirty[r];
                assert(self@.mirror.dirty[r]);
            }
        }
        yes
    }

    pub fn damage_all(&mut self)
        requires
            old(self).wf(),
        ensures
            final(self).wf(),
            final(self)@ == (CoreView { mirror: all_dirty(old(self)@.mirror), ..old(self)@ }),
    {
        self.mirror.damage_all();
    }

    pub fn clear_damage(&mut self)
        requires
            old(self).wf(),
        ensures
            final(self).wf(),
            final(self)@ == (CoreView {
                mirror: MirrorView {
                    dirty: Seq::new(old(self)@.mirror.rows.len(), |r: int| false),
                    ..old(self)@.mirror
                },
                ..old(self)@
            }),
    {
        self.mirror.clear_damage();
    }

    pub fn cursor(&self) -> (c: CursorState)
        requires
            self.wf(),
        ensures
            c == cursor_of(self@.screen),
    {
        let (line, column) = cursor_point(&self.term);
        let offset: usize = display_offset(&self.term);
        let (shape, blinking) = cursor_style(&self.term);
        let mode: u32 = mode_bits(&self.term);
        let hidden = match shape {
            SourceShape::Hidden => true,
            _ => false,
        };
        let seen: i64 = hold(line as i64 + offset as i64, 0, 65535);
        CursorState {
            line: seen as u16,
            column: column as u16,
            shape: match shape {
                SourceShape::Underline => CursorShape::Underline,
                SourceShape::Beam => CursorShape::Bar,
                SourceShape::Block => CursorShape::Block,
                SourceShape::HollowBlock => CursorShape::Block,
                SourceShape::Hidden => CursorShape::Block,
            },
            visible: mode & MODE_SHOW_CURSOR != 0 && !hidden,
            blinking,
        }
    }

    /// What the child asked of its input.
    pub fn modes(&self) -> (m: TermModes)
        ensures
            m == modes_of(self@.screen.mode),
    {
        translate_modes(mode_bits(&self.term))
    }

    pub fn selection(&self) -> (s: Option<Selection>)
        requires
            self.wf(),
        ensures
            s == selection_of(self@.screen),
    {
        let offset: usize = display_offset(&self.term);
        match selected_range(&self.term) {
            Some(r) => if self.inside(r.start) && self.inside(r.end) {
                Some(
                    Selection {
                        start: Point {
                            line: r.start.0 + offset as i32,
                            column: r.start.1 as u16,
                        },
                        end: Point { line: r.end.0 + offset as i32, column: r.end.1 as u16 },
                        kind: if r.block {
                            SelectionKind::Block
                        } else {
                            SelectionKind::Simple
                        },
                    },
                )
            } else {
                None
            },
            None => None,
        }
    }

    fn inside(&self, at: (i32, usize)) -> (yes: bool)
        requires
            self.wf(),
        ensures
            yes == self@.screen.has(at),
    {
        let (cols, _rows) = self.mirror.dimensions();
        topmost_line(&self.term) <= at.0 && at.0 <= bottommost_line(&self.term) && at.1
            < cols as usize
    }

    fn place(&self, p: Point) -> (at: (i32, usize))
        requires
            self.wf(),
        ensures
            at == grid_place(self@.screen, p),
            self@.screen.has(at),
    {
        let offset: usize = display_offset(&self.term);
        let top: i32 = topmost_line(&self.term);
        let bottom: i32 = bottommost_line(&self.term);
        let (cols, _rows) = self.mirror.dimensions();
        let line: i64 = hold(p.line as i64 - offset as i64, top as i64, bottom as i64);
        let column: u16 = if p.column < cols && p.line as i64 - offset as i64 <= bottom as i64 {
            p.column
        } else {
            cols - 1
        };
        (line as i32, column as usize)
    }

    /// Selects, or deselects. A place outside of what the terminal holds is
    /// moved to its edge. What is selected is drawn with the cells, so all rows
    /// are dirty.
    pub fn set_selection(&mut self, selection: Option<Selection>)
        requires
            old(self).wf(),
        ensures
            final(self).wf(),
            final(self)@ == selecting(old(self)@, selection),
            final(self)@.screen.selected matches Some(r) ==> final(self)@.screen.holds(r),
    {
        match selection {
            Some(s) => {
                let a = self.place(s.start);
                let b = self.place(s.end);
                let (cols, _rows) = self.mirror.dimensions();
                let block: bool = match s.kind {
                    SelectionKind::Block => true,
                    SelectionKind::Simple => false,
                };
                if block && a.0 > b.0 && a.1 == b.1 && a.1 == cols as usize - 1 {
                    select(&mut self.term, block, b, a);
                } else {
                    select(&mut self.term, block, a, b);
                }
            },
            None => {
                deselect(&mut self.term);
            },
        }
        self.mirror.damage_all();
    }

    /// The text that is selected. A range whose text cannot be read, because it
    /// has left the grid or a wide character is torn at its edge, gives none.
    pub fn selection_text(&self) -> (text: Option<String>)
        requires
            self.wf(),
        ensures
            text is Some <==> can_be_copied(self@.screen),
            text matches Some(s) ==> self.copied() == Some(s@),
    {
        match selected_range(&self.term) {
            Some(r) => if self.inside(r.start) && self.inside(r.end) && self.can_copy(r) {
                selection_string(&self.term)
            } else {
                None
            },
            None => None,
        }
    }

    fn can_copy(&self, r: SelectedRange) -> (yes: bool)
        requires
            self.wf(),
            self@.screen.has(r.start),
            self@.screen.has(r.end),
        ensures
            yes == copyable(self@.screen, r),
    {
        let ghost v = self@.screen;
        let top: i32 = topmost_line(&self.term);
        let (cols, _rows) = self.mirror.dimensions();
        let last: usize = cols as usize - 1;
        if r.start.0 == top && r.end.1 == last {
            let edge = read_cell(&self.term, top, last);
            if edge.flags & SOURCE_LEADING_SPACER == SOURCE_LEADING_SPACER && (r.end.0 == top || (
            r.block && r.start.1 != 0)) {
                return false;
            }
        }
        let mut line: i64 = r.start.0 as i64;
        while line <= r.end.0 as i64
            invariant
                self.wf(),
                v == self@.screen,
                v.has(r.start),
                v.has(r.end),
                r.start.0 <= line,
                line <= r.end.0 + 1 || line == r.start.0,
                forall|k: int|
                    r.start.0 <= k < line && k <= r.end.0 && line_start(r, k) == 0 ==> !(
                    #[trigger] starts_torn(v, k)),
            decreases r.end.0 + 1 - line,
        {
            if r.start.1 == 0 || !(r.block || line == r.start.0 as i64) {
                let first = read_cell(&self.term, line as i32, 0);
                if first.flags & SOURCE_SPACER == SOURCE_SPACER {
                    assert(starts_torn(v, line as int));
                    return false;
                }
            }
            line += 1;
        }
        true
    }

    /// Takes what was sniffed and what the terminal said, in that order.
    pub fn drain_semantic_events(&mut self) -> (events: Vec<SemanticEvent>)
        requires
            old(self).wf(),
        ensures
            final(self).wf(),
            event_views(events@) == old(self)@.sniffer.events + old(self)@.sink.events,
            final(self)@ == (CoreView {
                sniffer: SnifferView { events: Seq::empty(), ..old(self)@.sniffer },
                sink: SinkView { events: Seq::empty(), ..old(self)@.sink },
                ..old(self)@
            }),
    {
        let mut events = self.sniffer.drain();
        let ghost sniffed = events@;
        let mut said: Vec<SemanticEvent> = Vec::new();
        core::mem::swap(&mut said, &mut self.sink.events);
        let ghost told = said@;
        events.append(&mut said);
        assert(event_views(events@) =~= event_views(sniffed) + event_views(told));
        assert(self@.sink.events =~= Seq::empty());
        events
    }

    /// Takes what is to be written to the child.
    pub fn take_replies(&mut self) -> (replies: Vec<u8>)
        requires
            old(self).wf(),
        ensures
            final(self).wf(),
            replies@ == old(self)@.sink.replies,
            final(self)@ == (CoreView {
                sink: SinkView { replies: Seq::empty(), ..old(self)@.sink },
                ..old(self)@
            }),
    {
        let mut replies: Vec<u8> = Vec::new();
        core::mem::swap(&mut replies, &mut self.sink.replies);
        replies
    }

    /// Takes the title, where it changed.
    pub fn take_title(&mut self) -> (title: Option<String>)
        requires
            old(self).wf(),
        ensures
            final(self).wf(),
            text_view(title) == old(self)@.sink.title,
            final(self)@ == (CoreView {
                sink: SinkView { title: None, ..old(self)@.sink },
                ..old(self)@
            }),
    {
        self.sink.title.take()
    }

    pub fn side_tables(&self) -> (t: &SideTables)
        ensures
            tables_view(*t) == self@.tables,
            *t == self.stored(),
    {
        &self.tables
    }

    /// The line of the screen that the cursor is on, wherever the window is.
    pub fn cursor_line(&self) -> (line: u16)
        requires
            self.wf(),
        ensures
            line == self@.screen.cursor.0,
    {
        cursor_point(&self.term).0 as u16
    }

    /// How many lines are kept, on the screen and above it.
    pub fn history_len(&self) -> (n: usize)
        requires
            self.wf(),
        ensures
            n == self@.screen.history + self@.screen.lines,
    {
        total_lines(&self.term)
    }

    /// The oldest and the last line.
    pub fn line_bounds(&self) -> (b: (i32, i32))
        requires
            self.wf(),
        ensures
            b.0 == -self@.screen.history,
            b.1 == self@.screen.lines - 1,
    {
        (topmost_line(&self.term), bottommost_line(&self.term))
    }

    /// The text of a line, where there is such a line.
    pub fn line_text(&self, line: i32) -> (text: Option<String>)
        requires
            self.wf(),
        ensures
            text is Some <==> -self@.screen.history <= line < self@.screen.lines,
            text matches Some(s) ==> {
                let (from, to) = line_bounds_of(self@.screen, line as int);
                s@ == if from <= to {
                    self.text_from((line, from as usize), (line, to as usize))
                } else {
                    Seq::empty()
                }
            },
    {
        let (top, bottom) = self.line_bounds();
        if line < top || line > bottom {
            return None;
        }
        let (cols, _rows) = self.mirror.dimensions();
        let ghost v = self@.screen;
        let first = read_cell(&self.term, line, 0);
        let last = read_cell(&self.term, line, cols as usize - 1);
        let from: usize = if first.flags & SOURCE_SPACER == SOURCE_SPACER {
            1
        } else {
            0
        };
        // One past the last column.
        let until: usize = if line == top && last.flags & SOURCE_LEADING_SPACER
            == SOURCE_LEADING_SPACER {
            cols as usize - 1
        } else {
            cols as usize
        };
        if from < until {
            let range = SelectedRange { start: (line, from), end: (line, until - 1), block: false };
            assert(copyable(v, range));
            Some(bounds_string(&self.term, (line, from), (line, until - 1)))
        } else {
            let none = String::new();
            assert(none@ =~= Seq::empty());
            Some(none)
        }
    }

    /// The target of the hyperlink at a place of the window.
    pub fn hyperlink_at(&self, at: Point) -> (uri: Option<String>)
        requires
            self.wf(),
        ensures
            text_view(uri) == if 0 <= at.line < self@.mirror.rows.len() && at.column
                < self@.mirror.cols {
                link_of(self@.mirror.rows[at.line as int][at.column as int], self@.tables)
            } else {
                None
            },
    {
        let (cols, rows) = self.mirror.dimensions();
        if at.line < 0 || at.line >= rows as i32 || at.column >= cols {
            return None;
        }
        let row = self.mirror.row(at.line as u16);
        proof {
            self.mirror.law_rectangular();
        }
        let cell: Cell = row[at.column as usize];
        match self.tables.extras.get(cell.extra) {
            Some(e) => match e.hyperlink {
                Some(id) => match self.tables.hyperlinks.get(id) {
                    Some(uri) => Some(uri.to_owned()),
                    None => None,
                },
                None => None,
            },
            None => None,
        }
    }

    /// What the window shows, as text.
    pub fn visible_text(&self) -> (text: String)
        requires
            self.wf(),
        ensures
            text@ == rows_text(
                self@.mirror.rows,
                self@.tables,
                self@.mirror.rows.len() as int,
            ),
    {
        let (_cols, rows) = self.mirror.dimensions();
        let mut out: Vec<char> = Vec::new();
        let mut r: u16 = 0;
        while r < rows
            invariant
                r <= rows == self@.mirror.rows.len(),
                self.wf(),
                out@ == rows_text(self@.mirror.rows, self@.tables, r as int),
            decreases rows - r,
        {
            let cells = self.mirror.row(r);
            let n: usize = cells.len();
            let ghost had = out@;
            let mut c: usize = 0;
            assert(out@ =~= had + cells_text(cells@, self@.tables, 0));
            while c < n
                invariant
                    c <= n == cells@.len(),
                    out@ == had + cells_text(cells@, self@.tables, c as int),
                decreases n - c,
            {
                let cell: Cell = cells[c];
                if !cell.flags.contains(CellFlags::wide_spacer()) {
                    if let Some(ch) = cell.content.as_scalar() {
                        out.push(ch);
                    } else if let Some(id) = cell.content.as_cluster() {
                        if let Some(cluster) = self.tables.graphemes.get(id) {
                            push_text(cluster, &mut out);
                        }
                    }
                }
                assert(out@ =~= had + cells_text(cells@, self@.tables, c + 1));
                c += 1;
            }
            out.push('\n');
            assert(out@ =~= rows_text(self@.mirror.rows, self@.tables, r + 1));
            r += 1;
        }
        let m: usize = out.len();
        assert(out@.subrange(0, m as int) =~= out@);
        string_of(&out, 0, m)
    }

    /// Takes over what the terminal has said.
    fn absorb(&mut self)
        requires
            old(self).shaped(),
        ensures
            final(self).wf(),
            final(self)@ == (CoreView {
                sink: after_events(
                    old(self)@.sink,
                    unheard(old(self).term),
                    unheard(old(self).term).len() as int,
                ),
                ..old(self)@
            }),
            final(self).tables == old(self).tables,
    {
        let ghost all = unheard(self.term);
        let events = received(&self.events, &mut self.term);
        assert(events@.len() == all_said(events@).len());
        let mut left: Vec<Event> = Vec::new();
        let mut events = events;
        let n: usize = events.len();
        // Taken from the end, so turned round first.
        while events.len() > 0
            invariant
                self.wf(),
                self@ == old(self)@,
                self.tables == old(self).tables,
                events@.len() + left@.len() == n == all.len(),
                forall|k: int| 0 <= k < events@.len() ==> event_said(#[trigger] events@[k]) == all[k],
                forall|k: int|
                    0 <= k < left@.len() ==> event_said(#[trigger] left@[k]) == all[n - 1 - k],
            decreases events@.len(),
        {
            if let Some(e) = events.pop() {
                left.push(e);
            }
        }
        while left.len() > 0
            invariant
                self.wf(),
                left@.len() <= n == all.len(),
                self@ == (CoreView {
                    sink: after_events(old(self)@.sink, all, n - left@.len()),
                    ..old(self)@
                }),
                self.tables == old(self).tables,
                forall|k: int|
                    0 <= k < left@.len() ==> event_said(#[trigger] left@[k]) == all[n - 1 - k],
            decreases left@.len(),
        {
            if let Some(e) = left.pop() {
                let event = said(e);
                self.sink.absorb(event);
            }
        }
    }

    /// Takes the lines that changed over into the mirror. It is here that the
    /// grid's cells are read.
    fn sync_damage(&mut self)
        requires
            old(self).shaped(),
        ensures
            final(self).shaped(),
            unheard(final(self).term) == unheard(old(self).term),
            final(self).parser == old(self).parser,
            limit(final(self).term) == limit(old(self).term),
            final(self).sniffer == old(self).sniffer,
            final(self).sink == old(self).sink,
            final(self)@.screen == (ScreenView {
                damage: final(self)@.screen.damage,
                ..old(self)@.screen
            }),
            tables_grew(old(self)@.tables, final(self)@.tables),
            all_plain(old(self)@.screen) ==> final(self).tables == old(self).tables,
            synced(old(self)@.mirror, old(self)@.screen, final(self)@.tables, final(self)@.mirror),
    {
        let ghost v = self@.screen;
        let (cols, rows) = self.mirror.dimensions();
        let lines: Vec<usize> = match term_damage(&mut self.term) {
            Some(lines) => lines,
            None => counted(rows as usize),
        };
        assert(lines@ =~= damaged_lines(v));
        reset_damage(&mut self.term);
        let ghost mut shown: Seq<Seq<Cell>> = Seq::empty();
        let n: usize = lines.len();
        let mut i: usize = 0;
        while i < n
            invariant
                i <= n == lines@.len(),
                lines@ == damaged_lines(v),
                v == old(self)@.screen,
                v.sound(),
                cols == v.columns,
                rows == v.lines,
                self.shaped(),
                unheard(self.term) == unheard(old(self).term),
                self.parser == old(self).parser,
                limit(self.term) == limit(old(self).term),
                self.sniffer == old(self).sniffer,
                self.sink == old(self).sink,
                self@.screen == (ScreenView { damage: self@.screen.damage, ..v }),
                tables_grew(old(self)@.tables, self@.tables),
                all_plain(v) ==> self.tables == old(self).tables,
                lines_show(v, lines@, shown, self@.tables, i as int),
                self@.mirror == put_lines(old(self)@.mirror, v, lines@, shown, i as int),
            decreases n - i,
        {
            let line: usize = lines[i];
            let ghost tables = self@.tables;
            let ghost before = shown;
            if line < rows as usize {
                proof {
                    lemma_same_cells(self@.screen, v, line as int);
                }
                let ghost now = self@.screen;
                let (scratch, wrapped) = self.read_row(line, cols);
                proof {
                    lemma_same_rows(now, v, scratch@, line as int, self@.tables);
                }
                let ghost grown = self@.tables;
                let _changed = self.mirror.put_row(line as u16, scratch.as_slice(), wrapped);
                proof {
                    shown = before.push(scratch@);
                    lemma_rows_outlive(v, lines@, before, tables, grown, i as int);
                    lemma_put_extends(
                        old(self)@.mirror,
                        v,
                        lines@,
                        before,
                        scratch@,
                        i as int,
                    );
                    assert(shown[i as int] == scratch@);
                    assert(self@.mirror == put_lines(
                        old(self)@.mirror,
                        v,
                        lines@,
                        shown,
                        i + 1,
                    ));
                    self.mirror.law_rectangular();
                    assert(all_plain(v) ==> row_plain(v, damaged_lines(v)[i as int] as int));
                }
            } else {
                proof {
                    shown = before.push(Seq::empty());
                    lemma_put_extends(
                        old(self)@.mirror,
                        v,
                        lines@,
                        before,
                        Seq::empty(),
                        i as int,
                    );
                    assert forall|k: int| 0 <= k < i + 1 && lines@[k] < v.lines implies row_shows(
                        #[trigger] shown[k],
                        v,
                        lines@[k] as int,
                        self@.tables,
                    ) by {
                        assert(k < i);
                        assert(shown[k] == before[k]);
                    }
                }
            }
            i += 1;
        }
        assert(lines_show(v, damaged_lines(v), shown, self@.tables, n as int));
    }

    /// Reads a line of the window, and says whether it goes on in the next.
    fn read_row(&mut self, line: usize, cols: u16) -> (r: (Vec<Cell>, bool))
        requires
            old(self).shaped(),
            cols == old(self)@.screen.columns,
            line < old(self)@.screen.lines,
        ensures
            final(self).shaped(),
            final(self).term == old(self).term,
            final(self).parser == old(self).parser,
            limit(final(self).term) == limit(old(self).term),
            final(self).sniffer == old(self).sniffer,
            final(self).sink == old(self).sink,
            final(self).mirror == old(self).mirror,
            tables_grew(old(self)@.tables, final(self)@.tables),
            row_plain(old(self)@.screen, line as int) ==> final(self).tables == old(self).tables,
            row_shows(r.0@, old(self)@.screen, line as int, final(self)@.tables),
            r.1 == row_wraps(old(self)@.screen, line as int),
    {
        let ghost v = self@.screen;
        let offset: usize = display_offset(&self.term);
        let at: i32 = line as i32 - offset as i32;
        let mut cells: Vec<Cell> = Vec::new();
        let mut wrapped: bool = false;
        let mut c: u16 = 0;
        while c < cols
            invariant
                c <= cols == v.columns,
                v == screen(self.term),
                v.sound(),
                offset == v.offset,
                line < v.lines,
                at == line - offset,
                self.term == old(self).term,
                self.parser == old(self).parser,
                limit(self.term) == limit(old(self).term),
                self.sniffer == old(self).sniffer,
                self.sink == old(self).sink,
                self.events == old(self).events,
                self.mirror == old(self).mirror,
                self.tables.wf(),
                tables_grew(old(self)@.tables, tables_view(self.tables)),
                row_plain(v, line as int) ==> self.tables == old(self).tables,
                cells@.len() == c,
                forall|k: int|
                    0 <= k < c ==> shows(
                        #[trigger] cells@[k],
                        v.at(line - v.offset, k),
                        tables_view(self.tables),
                    ),
                wrapped == exists|k: int|
                    0 <= k < c && has_flag(
                        (#[trigger] v.at(line - v.offset, k)).flags,
                        SOURCE_WRAPLINE,
                    ),
            decreases cols - c,
        {
            let src = read_cell(&self.term, at, c as usize);
            assert(src@ == v.at(line - v.offset, c as int));
            if src.flags & SOURCE_WRAPLINE == SOURCE_WRAPLINE {
                wrapped = true;
            }
            let ghost tables = tables_view(self.tables);
            let ghost had = cells@;
            let cell = translate_cell(&src, &mut self.tables);
            cells.push(cell);
            proof {
                let grown = tables_view(self.tables);
                assert forall|k: int| 0 <= k < c + 1 implies shows(
                    #[trigger] cells@[k],
                    v.at(line - v.offset, k),
                    grown,
                ) by {
                    if k < c {
                        assert(cells@[k] == had[k]);
                        law_cells_outlive_table_growth(
                            cells@[k],
                            v.at(line - v.offset, k),
                            tables,
                            grown,
                        );
                    }
                }
            }
            c += 1;
        }
        (cells, wrapped)
    }
}

proof fn lemma_same_cells(a: ScreenView, b: ScreenView, line: int)
    requires
        a == (ScreenView { damage: a.damage, ..b }),
    ensures
        row_wraps(a, line) == row_wraps(b, line),
        row_plain(a, line) == row_plain(b, line),
{
    assert forall|l: int, c: int| a.at(l, c) == #[trigger] b.at(l, c) by {}
    if row_wraps(a, line) {
        let c = choose|c: int|
            0 <= c < a.columns && has_flag(
                (#[trigger] a.at(line - a.offset, c)).flags,
                SOURCE_WRAPLINE,
            );
        assert(has_flag(b.at(line - b.offset, c).flags, SOURCE_WRAPLINE));
    }
    if row_wraps(b, line) {
        let c = choose|c: int|
            0 <= c < b.columns && has_flag(
                (#[trigger] b.at(line - b.offset, c)).flags,
                SOURCE_WRAPLINE,
            );
        assert(has_flag(a.at(line - a.offset, c).flags, SOURCE_WRAPLINE));
    }
    if row_plain(a, line) {
        assert forall|c: int| 0 <= c < b.columns implies plain(
            #[trigger] b.at(line - b.offset, c),
        ) by {
            assert(plain(a.at(line - a.offset, c)));
        }
    }
    if row_plain(b, line) {
        assert forall|c: int| 0 <= c < a.columns implies plain(
            #[trigger] a.at(line - a.offset, c),
        ) by {
            assert(plain(b.at(line - b.offset, c)));
        }
    }
}

proof fn lemma_same_rows(a: ScreenView, b: ScreenView, cells: Seq<Cell>, line: int, t: TablesView)
    requires
        a == (ScreenView { damage: a.damage, ..b }),
        row_shows(cells, a, line, t),
    ensures
        row_shows(cells, b, line, t),
{
    assert forall|c: int| 0 <= c < cells.len() implies shows(
        #[trigger] cells[c],
        b.at(line - b.offset, c),
        t,
    ) by {
        assert(shows(cells[c], a.at(line - a.offset, c), t));
    }
}

/// The numbers below `n`.
fn counted(n: usize) -> (v: Vec<usize>)
    ensures
        v@ == Seq::new(n as nat, |i: int| i as usize),
{
    let mut v: Vec<usize> = Vec::new();
    let mut i: usize = 0;
    while i < n
        invariant
            i <= n,
            v@ == Seq::new(i as nat, |k: int| k as usize),
        decreases n - i,
    {
        v.push(i);
        i += 1;
        assert(v@ =~= Seq::new(i as nat, |k: int| k as usize));
    }
    v
}

proof fn lemma_put_extends(
    m: MirrorView,
    v: ScreenView,
    lines: Seq<usize>,
    rows: Seq<Seq<Cell>>,
    next: Seq<Cell>,
    n: int,
)
    requires
        0 <= n <= rows.len(),
    ensures
        put_lines(m, v, lines, rows.push(next), n) == put_lines(m, v, lines, rows, n),
    decreases n,
{
    if n > 0 {
        lemma_put_extends(m, v, lines, rows, next, n - 1);
        assert(rows.push(next)[n - 1] == rows[n - 1]);
    }
}

proof fn lemma_rows_outlive(
    v: ScreenView,
    lines: Seq<usize>,
    rows: Seq<Seq<Cell>>,
    before: TablesView,
    after: TablesView,
    n: int,
)
    requires
        lines_show(v, lines, rows, before, n),
        tables_grew(before, after),
    ensures
        lines_show(v, lines, rows, after, n),
{
    assert forall|i: int| 0 <= i < n && lines[i] < v.lines implies row_shows(
        #[trigger] rows[i],
        v,
        lines[i] as int,
        after,
    ) by {
        assert(row_shows(rows[i], v, lines[i] as int, before));
        assert forall|c: int| 0 <= c < rows[i].len() implies shows(
            #[trigger] rows[i][c],
            v.at(lines[i] - v.offset, c),
            after,
        ) by {
            law_cells_outlive_table_growth(
                rows[i][c],
                v.at(lines[i] - v.offset, c),
                before,
                after,
            );
        }
    }
}

/// Putting lines that are already there dirties nothing, however often the
/// terminal names them.
pub proof fn law_repainting_the_same_dirties_nothing(
    m: MirrorView,
    v: ScreenView,
    lines: Seq<usize>,
    rows: Seq<Seq<Cell>>,
    n: int,
)
    requires
        0 <= n <= lines.len(),
        m.rows.len() == v.lines,
        forall|i: int|
            #![trigger rows[i]]
            0 <= i < n && lines[i] < v.lines ==> fitted_row(rows[i], m.cols)
                == m.rows[lines[i] as int] && row_wraps(v, lines[i] as int)
                == m.wrapped[lines[i] as int],
    ensures
        put_lines(m, v, lines, rows, n) == m,
    decreases n,
{
    if n > 0 {
        law_repainting_the_same_dirties_nothing(m, v, lines, rows, n - 1);
        assert(lines[n - 1] < v.lines ==> fitted_row(rows[n - 1], m.cols)
            == m.rows[lines[n - 1] as int]);
    }
}

/// Scrolling up into what is there and down again by as much shows the same
/// lines.
pub proof fn law_scrolling_back_shows_the_same(v: ScreenView, delta: int)
    requires
        v.sound(),
        0 <= v.offset + delta <= v.history,
    ensures
        scrolled(scrolled(v, delta), -delta) == (ScreenView {
            damage: scrolled(scrolled(v, delta), -delta).damage,
            ..v
        }),
{
}

/// A colour that the child asked for is the colour of the cell: an index below
/// 256 is that entry of the palette, a literal colour is itself, and only the
/// terminal's own foreground, background and the like are left to the theme.
pub proof fn law_colours_come_through(cell: Cell, s: SourceView, t: TablesView)
    requires
        shows(cell, s, t),
    ensures
        forall|i: u8| s.fg == SourceColor::Indexed(i) ==> cell.fg@ == ColorView::Palette(i),
        forall|i: u8| s.bg == SourceColor::Indexed(i) ==> cell.bg@ == ColorView::Palette(i),
        forall|i: u8| s.fg == SourceColor::Named(i as u16) ==> cell.fg@ == ColorView::Palette(i),
        forall|i: u8| s.bg == SourceColor::Named(i as u16) ==> cell.bg@ == ColorView::Palette(i),
        forall|n: u16| n >= 256 && s.fg == SourceColor::Named(n) ==> cell.fg@ == ColorView::Default,
        forall|n: u16| n >= 256 && s.bg == SourceColor::Named(n) ==> cell.bg@ == ColorView::Default,
        forall|r: u8, g: u8, b: u8|
            s.fg == SourceColor::Rgb(r, g, b) ==> cell.fg@ == ColorView::Rgb(r, g, b),
        forall|r: u8, g: u8, b: u8|
            s.bg == SourceColor::Rgb(r, g, b) ==> cell.bg@ == ColorView::Rgb(r, g, b),
{
}

/// Two indices give two colours, and neither is the theme's default.
pub proof fn law_indexed_colours_differ(
    a: Cell,
    s: SourceView,
    b: Cell,
    u: SourceView,
    t: TablesView,
    i: u8,
    j: u8,
)
    requires
        shows(a, s, t),
        shows(b, u, t),
        s.fg == SourceColor::Indexed(i),
        u.fg == SourceColor::Indexed(j),
    ensures
        a.fg@ == b.fg@ <==> i == j,
        !(a.fg@ is Default),
        !(a.fg@ is Unassigned),
{
}

/// Each attribute of a cell of the grid is that attribute of the cell, and no
/// other is set: bold, dim, italic, inverse, hidden and struck through. A cell
/// that a wide character takes up without starting in it is a spacer. The
/// width is two exactly where a wide character starts.
pub proof fn law_attributes_come_through(cell: Cell, s: SourceView, t: TablesView)
    requires
        shows(cell, s, t),
    ensures
        cell.flags@ & 0x0001 != 0 <==> s.flags & 0x0002 != 0,
        cell.flags@ & 0x0002 != 0 <==> s.flags & 0x0080 != 0,
        cell.flags@ & 0x0004 != 0 <==> s.flags & 0x0004 != 0,
        cell.flags@ & 0x0008 != 0 <==> s.flags & 0x0001 != 0,
        cell.flags@ & 0x0010 != 0 <==> s.flags & 0x0100 != 0,
        cell.flags@ & 0x0020 != 0 <==> s.flags & 0x0200 != 0,
        cell.flags@ & 0x1000 != 0 <==> s.flags & 0x0440 != 0,
        cell.flags@ & 0xE0C0 == 0,
        cell.width == 2 <==> s.flags & 0x0020 != 0,
        cell.width == 1 <==> s.flags & 0x0020 == 0,
{
    lemma_flag_bits(s.flags);
}

/// The underline of a cell is the one that the grid's cell has: a curly one
/// before a double, a dotted, a dashed and a plain one, where several are set.
pub proof fn law_underlines_come_through(cell: Cell, s: SourceView, t: TablesView)
    requires
        shows(cell, s, t),
    ensures
        cell.flags@ & 0x0F00 == 0 <==> s.flags & 0x7808 == 0,
        s.flags & 0x1000 != 0 ==> cell.flags@ & 0x0F00 == 0x0300,
        s.flags & 0x1800 == 0x0800 ==> cell.flags@ & 0x0F00 == 0x0200,
        s.flags & 0x3800 == 0x2000 ==> cell.flags@ & 0x0F00 == 0x0400,
        s.flags & 0x7800 == 0x4000 ==> cell.flags@ & 0x0F00 == 0x0500,
        s.flags & 0x7808 == 0x0008 ==> cell.flags@ & 0x0F00 == 0x0100,
{
    lemma_flag_bits(s.flags);
}

proof fn lemma_flag_bits(f: u16)
    ensures
        flags_of(f) & 0x0001 != 0 <==> f & 0x0002 != 0,
        flags_of(f) & 0x0002 != 0 <==> f & 0x0080 != 0,
        flags_of(f) & 0x0004 != 0 <==> f & 0x0004 != 0,
        flags_of(f) & 0x0008 != 0 <==> f & 0x0001 != 0,
        flags_of(f) & 0x0010 != 0 <==> f & 0x0100 != 0,
        flags_of(f) & 0x0020 != 0 <==> f & 0x0200 != 0,
        flags_of(f) & 0x1000 != 0 <==> f & 0x0440 != 0,
        flags_of(f) & 0xE0C0 == 0,
        has_flag(f, SOURCE_WIDE) <==> f & 0x0020 != 0,
        flags_of(f) & 0x0F00 == 0 <==> f & 0x7808 == 0,
        f & 0x1000 != 0 ==> flags_of(f) & 0x0F00 == 0x0300,
        f & 0x1800 == 0x0800 ==> flags_of(f) & 0x0F00 == 0x0200,
        f & 0x3800 == 0x2000 ==> flags_of(f) & 0x0F00 == 0x0400,
        f & 0x7800 == 0x4000 ==> flags_of(f) & 0x0F00 == 0x0500,
        f & 0x7808 == 0x0008 ==> flags_of(f) & 0x0F00 == 0x0100,
{
    assert({
        &&& flags_of(f) & 0x0001 != 0 <==> f & 0x0002 != 0
        &&& flags_of(f) & 0x0002 != 0 <==> f & 0x0080 != 0
        &&& flags_of(f) & 0x0004 != 0 <==> f & 0x0004 != 0
        &&& flags_of(f) & 0x0008 != 0 <==> f & 0x0001 != 0
        &&& flags_of(f) & 0x0010 != 0 <==> f & 0x0100 != 0
        &&& flags_of(f) & 0x0020 != 0 <==> f & 0x0200 != 0
        &&& flags_of(f) & 0x1000 != 0 <==> f & 0x0440 != 0
        &&& flags_of(f) & 0xE0C0 == 0
        &&& has_flag(f, SOURCE_WIDE) <==> f & 0x0020 != 0
        &&& flags_of(f) & 0x0F00 == 0 <==> f & 0x7808 == 0
        &&& f & 0x1000 != 0 ==> flags_of(f) & 0x0F00 == 0x0300
        &&& f & 0x1800 == 0x0800 ==> flags_of(f) & 0x0F00 == 0x0200
        &&& f & 0x3800 == 0x2000 ==> flags_of(f) & 0x0F00 == 0x0400
        &&& f & 0x7800 == 0x4000 ==> flags_of(f) & 0x0F00 == 0x0500
        &&& f & 0x7808 == 0x0008 ==> flags_of(f) & 0x0F00 == 0x0100
    }) by (bit_vector);
}

/// The text of a cell is the character that the grid holds there with the ones
/// that have no width of their own, as long as there is room for clusters. What
/// a wide character takes up without starting there has no text.
pub proof fn law_text_comes_through(cell: Cell, s: SourceView, t: TablesView)
    requires
        shows(cell, s, t),
        t.graphemes.len() < 0x8000_0000,
    ensures
        s.flags & 0x0440 == 0 ==> cell_text(cell, t) == seq![s.c] + s.zerowidth,
        s.flags & 0x0440 != 0 ==> cell_text(cell, t) == Seq::<char>::empty(),
        s.zerowidth.len() == 0 ==> cell.content@ == ContentView::Scalar(s.c),
{
    lemma_flag_bits(s.flags);
    let f = cell.flags@;
    assert(f & WIDE_SPACER_BITS == WIDE_SPACER_BITS <==> f & 0x1000 != 0) by (bit_vector);
    if s.zerowidth.len() == 0 {
        assert(seq![s.c] + s.zerowidth =~= seq![s.c]);
    }
}

/// The link and the underline colour of a cell are those of the grid's cell, as
/// long as there is room for them.
pub proof fn law_links_and_underline_colours_come_through(cell: Cell, s: SourceView, t: TablesView)
    requires
        shows(cell, s, t),
        t.extras.len() < u32::MAX,
        t.hyperlinks.len() < u32::MAX,
    ensures
        link_of(cell, t) == s.hyperlink,
        s.underline is None && s.hyperlink is None <==> cell.extra == 0,
        cell.extra != 0 ==> 1 <= cell.extra <= t.extras.len(),
        s.underline is None && cell.extra != 0 ==> t.extras[cell.extra - 1].underline_color is None,
        forall|i: u8|
            s.underline == Some(SourceColor::Indexed(i)) ==> {
                &&& t.extras[cell.extra - 1].underline_color is Some
                &&& t.extras[cell.extra - 1].underline_color->0@ == ColorView::Palette(i)
            },
        forall|r: u8, g: u8, b: u8|
            s.underline == Some(SourceColor::Rgb(r, g, b)) ==> {
                &&& t.extras[cell.extra - 1].underline_color is Some
                &&& t.extras[cell.extra - 1].underline_color->0@ == ColorView::Rgb(r, g, b)
            },
{
}

proof fn lemma_put_lines(
    m: MirrorView,
    v: ScreenView,
    lines: Seq<usize>,
    rows: Seq<Seq<Cell>>,
    t: TablesView,
    n: int,
)
    requires
        rectangular(m),
        m.cols == v.columns,
        m.rows.len() == v.lines,
        v.lines <= u16::MAX,
        0 <= n <= lines.len(),
        n <= rows.len(),
        forall|i: int|
            0 <= i < n && lines[i] < v.lines ==> row_shows(
                #[trigger] rows[i],
                v,
                lines[i] as int,
                t,
            ),
    ensures
        ({
            let after = put_lines(m, v, lines, rows, n);
            &&& rectangular(after)
            &&& after.cols == m.cols
            &&& after.rows.len() == m.rows.len()
            &&& forall|l: int|
                #![trigger after.rows[l]]
                0 <= l < v.lines ==> {
                    &&& lines.take(n).contains(l as usize) ==> {
                        &&& row_shows(after.rows[l], v, l, t)
                        &&& after.wrapped[l] == row_wraps(v, l)
                    }
                    &&& !lines.take(n).contains(l as usize) ==> {
                        &&& after.rows[l] == m.rows[l]
                        &&& after.wrapped[l] == m.wrapped[l]
                        &&& after.dirty[l] == m.dirty[l]
                    }
                    &&& m.dirty[l] ==> after.dirty[l]
                    &&& !after.dirty[l] ==> after.rows[l] == m.rows[l] && after.wrapped[l]
                        == m.wrapped[l]
                }
        }),
    decreases n,
{
    if n > 0 {
        lemma_put_lines(m, v, lines, rows, t, n - 1);
        let before = put_lines(m, v, lines, rows, n - 1);
        let after = put_lines(m, v, lines, rows, n);
        let at = lines[n - 1];
        assert(lines.take(n) =~= lines.take(n - 1).push(at));
        if at < v.lines {
            assert(row_shows(rows[n - 1], v, at as int, t));
            assert(fitted_row(rows[n - 1], m.cols) =~= rows[n - 1]);
            assert(after.rows[at as int] == rows[n - 1]);
        }
        assert forall|l: int|
            #![trigger after.rows[l]]
            0 <= l < v.lines implies {
            &&& lines.take(n).contains(l as usize) ==> {
                &&& row_shows(after.rows[l], v, l, t)
                &&& after.wrapped[l] == row_wraps(v, l)
            }
            &&& !lines.take(n).contains(l as usize) ==> {
                &&& after.rows[l] == m.rows[l]
                &&& after.wrapped[l] == m.wrapped[l]
                &&& after.dirty[l] == m.dirty[l]
            }
            &&& m.dirty[l] ==> after.dirty[l]
            &&& !after.dirty[l] ==> after.rows[l] == m.rows[l] && after.wrapped[l] == m.wrapped[l]
        } by {
            assert(before.rows[l] == before.rows[l]);
            if l != at {
                assert(after.rows[l] == before.rows[l]);
                if lines.take(n).contains(l as usize) {
                    let all = lines.take(n);
                    let k = choose|k: int| 0 <= k < all.len() && all[k] == l as usize;
                    assert(lines.take(n - 1)[k] == l as usize);
                } else if lines.take(n - 1).contains(l as usize) {
                    let all = lines.take(n - 1);
                    let k = choose|k: int| 0 <= k < all.len() && all[k] == l as usize;
                    assert(lines.take(n)[k] == l as usize);
                }
            } else {
                assert(lines.take(n)[n - 1] == l as usize);
            }
        }
    }
}

/// Every line that changed arrives in the mirror where it is seen: column by
/// column it shows the grid's line that stands so far below the oldest one, and
/// it goes on in the next line exactly where the grid says so. A line that did
/// not change stays as it was. A row that became different is dirty, and one
/// that was stays so.
pub proof fn law_changed_lines_arrive(
    before: MirrorView,
    v: ScreenView,
    t: TablesView,
    after: MirrorView,
    line: int,
)
    requires
        v.sound(),
        rectangular(before),
        before.cols == v.columns,
        before.rows.len() == v.lines,
        synced(before, v, t, after),
        0 <= line < v.lines,
    ensures
        rectangular(after),
        after.cols == before.cols,
        after.rows.len() == before.rows.len(),
        v.damage is None || v.damage->0.contains(line as usize) ==> {
            &&& forall|c: int|
                0 <= c < v.columns ==> shows(
                    #[trigger] after.rows[line][c],
                    v.cells[v.history - v.offset + line][c],
                    t,
                )
            &&& after.wrapped[line] <==> exists|c: int|
                0 <= c < v.columns && (#[trigger] v.cells[v.history - v.offset + line][c]).flags
                    & 0x0010 != 0
        },
        v.damage is Some && !v.damage->0.contains(line as usize) ==> {
            &&& after.rows[line] == before.rows[line]
            &&& after.wrapped[line] == before.wrapped[line]
            &&& after.dirty[line] == before.dirty[line]
        },
        before.dirty[line] ==> after.dirty[line],
        after.rows[line] != before.rows[line] ==> after.dirty[line],
        after.wrapped[line] != before.wrapped[line] ==> after.dirty[line],
{
    let lines = damaged_lines(v);
    let n = lines.len() as int;
    let rows = choose|rows: Seq<Seq<Cell>>| #[trigger]
        lines_show(v, lines, rows, t, n) && after == put_lines(before, v, lines, rows, n);
    lemma_put_lines(before, v, lines, rows, t, n);
    assert(lines.take(n) =~= lines);
    assert(after.rows[line] == after.rows[line]);
    if v.damage is None {
        assert(lines[line] == line as usize);
    }
    if v.damage is None || v.damage->0.contains(line as usize) {
        assert(lines.contains(line as usize));
        assert forall|c: int| 0 <= c < v.columns implies shows(
            #[trigger] after.rows[line][c],
            v.cells[v.history - v.offset + line][c],
            t,
        ) by {
            assert(v.at(line - v.offset, c) == v.cells[v.history - v.offset + line][c]);
        }
        lemma_wrap_bits(v, line);
    }
}

proof fn lemma_wrap_bits(v: ScreenView, line: int)
    ensures
        row_wraps(v, line) <==> exists|c: int|
            0 <= c < v.columns && (#[trigger] v.cells[v.history - v.offset + line][c]).flags
                & 0x0010 != 0,
{
    assert forall|c: int| #[trigger]
        v.at(line - v.offset, c) == v.cells[v.history - v.offset + line][c] by {}
    assert forall|c: int|
        has_flag((#[trigger] v.at(line - v.offset, c)).flags, SOURCE_WRAPLINE) <==> v.at(
            line - v.offset,
            c,
        ).flags & 0x0010 != 0 by {
        let f = v.at(line - v.offset, c).flags;
        assert(f & SOURCE_WRAPLINE == SOURCE_WRAPLINE <==> f & 0x0010 != 0) by (bit_vector);
    }
    if exists|c: int|
        0 <= c < v.columns && (#[trigger] v.cells[v.history - v.offset + line][c]).flags & 0x0010
            != 0 {
        let c = choose|c: int|
            0 <= c < v.columns && (#[trigger] v.cells[v.history - v.offset + line][c]).flags
                & 0x0010 != 0;
        assert(has_flag(v.at(line - v.offset, c).flags, SOURCE_WRAPLINE));
    }
    if row_wraps(v, line) {
        let c = choose|c: int|
            0 <= c < v.columns && has_flag(
                (#[trigger] v.at(line - v.offset, c)).flags,
                SOURCE_WRAPLINE,
            );
        assert(v.cells[v.history - v.offset + line][c].flags & 0x0010 != 0);
    }
}

/// The cursor is seen where it is, moved down by as many lines as the window is
/// scrolled up, in its own shape, and is shown exactly where the child shows it.
pub proof fn law_the_cursor_is_seen_where_it_is(v: ScreenView)
    requires
        v.sound(),
    ensures
        v.cursor.0 + v.offset <= 65535 ==> cursor_of(v).line == v.cursor.0 + v.offset,
        v.cursor.0 + v.offset > 65535 ==> cursor_of(v).line == 65535,
        cursor_of(v).column == v.cursor.1,
        cursor_of(v).blinking == v.blinking,
        cursor_of(v).visible <==> v.mode % 2 == 1 && v.shape != SourceShape::Hidden,
        cursor_of(v).shape == CursorShape::Underline <==> v.shape == SourceShape::Underline,
        cursor_of(v).shape == CursorShape::Bar <==> v.shape == SourceShape::Beam,
{
    let m = v.mode;
    assert(m & MODE_SHOW_CURSOR != 0 <==> m % 2 == 1) by (bit_vector);
}

/// What the child asked of its input, bit by bit. Of several kinds of mouse
/// events the widest counts, and of several encodings the newest.
pub proof fn law_modes_are_what_was_asked(mode: u32)
    ensures
        modes_of(mode).bracketed_paste <==> mode & 0x0010 != 0,
        modes_of(mode).focus_reporting <==> mode & 0x0800 != 0,
        modes_of(mode).mouse_tracking == MouseTracking::Motion <==> mode & 0x0040 != 0,
        modes_of(mode).mouse_tracking == MouseTracking::Drag <==> mode & 0x0040 == 0 && mode
            & 0x2000 != 0,
        modes_of(mode).mouse_tracking == MouseTracking::Click <==> mode & 0x0040 == 0 && mode
            & 0x2000 == 0 && mode & 0x0008 != 0,
        modes_of(mode).mouse_reporting <==> mode & 0x0040 != 0 || mode & 0x2000 != 0 || mode
            & 0x0008 != 0,
        modes_of(mode).mouse_reporting <==> modes_of(mode).mouse_tracking != MouseTracking::Off,
        modes_of(mode).mouse_encoding == MouseEncoding::Sgr <==> mode & 0x0020 != 0,
        modes_of(mode).mouse_encoding == MouseEncoding::Utf8 <==> mode & 0x0020 == 0 && mode
            & 0x4000 != 0,
{
}

/// A selection that was made inside of what is kept is read back at the places
/// that it was made between, as long as the terminal takes its ends as they are.
pub proof fn law_places_inside_are_taken_as_they_are(v: ScreenView, p: Point)
    requires
        v.sound(),
        -v.history <= p.line - v.offset < v.lines,
        p.column < v.columns,
    ensures
        grid_place(v, p).0 + v.offset == p.line,
        grid_place(v, p).1 == p.column,
{
}

/// A place outside is taken as the nearest one: the oldest line above, and below
/// the very last cell.
pub proof fn law_places_outside_are_moved_to_the_edge(v: ScreenView, p: Point)
    requires
        v.sound(),
    ensures
        v.has(grid_place(v, p)),
        p.line - v.offset < -v.history ==> grid_place(v, p).0 == -v.history,
        p.line - v.offset >= v.lines ==> grid_place(v, p) == ((v.lines - 1) as i32, (v.columns - 1) as usize),
        p.column >= v.columns ==> grid_place(v, p).1 == v.columns - 1,
{
}

/// What is selected is told in lines of the window: scrolling it up by some lines
/// tells it as many lines lower, at the same columns.
pub proof fn law_selections_move_with_the_window(v: ScreenView, delta: int)
    requires
        v.sound(),
        0 <= v.offset + delta <= v.history,
    ensures
        match (selection_of(v), selection_of(scrolled(v, delta))) {
            (Some(a), Some(b)) => {
                &&& b.start.line == a.start.line + delta
                &&& b.end.line == a.end.line + delta
                &&& b.start.column == a.start.column
                &&& b.end.column == a.end.column
                &&& a.kind == b.kind
                &&& v.selected is Some
                &&& a.start.line == v.selected->0.start.0 + v.offset
                &&& a.start.column == v.selected->0.start.1
                &&& a.end.line == v.selected->0.end.0 + v.offset
                &&& a.end.column == v.selected->0.end.1
                &&& a.kind is Block <==> v.selected->0.block
            },
            (None, None) => v.selected matches Some(r) ==> !(v.has(r.start) && v.has(r.end)),
            _ => false,
        },
{
}

/// Scrolling up shows older lines: what was seen on a line is then seen so many
/// lines lower. The window never leaves what is kept, and nothing else changes.
pub proof fn law_scrolling_moves_the_window(v: ScreenView, delta: int)
    requires
        v.sound(),
    ensures
        scrolled(v, delta).sound(),
        scrolled(v, delta).cells == v.cells,
        scrolled(v, delta).cursor == v.cursor,
        0 <= v.offset + delta <= v.history ==> scrolled(v, delta).offset - v.offset == delta,
        v.offset + delta > v.history ==> scrolled(v, delta).offset == v.history,
        v.offset + delta < 0 ==> scrolled(v, delta).offset == 0,
        scrolled(v, delta).offset != v.offset ==> scrolled(v, delta).damage is None,
        scrolled(v, delta).offset == v.offset ==> scrolled(v, delta) == v,
{
}

/// What the terminal says is kept in order and told once: replies one after the
/// other as UTF-8, and everything else as the event that it is.
pub proof fn law_what_the_terminal_says_is_kept(s: SinkView, text: Seq<char>)
    ensures
        after_event(s, TermEventView::Reply(text)).replies == s.replies + encode_utf8(text),
        after_event(s, TermEventView::Reply(text)).events == s.events,
        after_event(s, TermEventView::Reply(text)).title == s.title,
        after_event(s, TermEventView::Title(text)).title == Some(text),
        after_event(s, TermEventView::Title(text)).events == s.events.push(EventView::Title(text)),
        after_event(s, TermEventView::Title(text)).replies == s.replies,
        after_event(s, TermEventView::ResetTitle) == after_event(
            s,
            TermEventView::Title(Seq::empty()),
        ),
        after_event(s, TermEventView::Clipboard(text)) == (SinkView {
            events: s.events.push(EventView::ClipboardWrite(text)),
            ..s
        }),
        after_event(s, TermEventView::Bell) == (SinkView {
            events: s.events.push(EventView::Bell),
            ..s
        }),
        after_event(s, TermEventView::Other) == s,
{
}

/// Nothing that the terminal said is lost or said twice: each event is taken in
/// after those before it.
pub proof fn law_what_was_said_is_taken_in_order(
    s: SinkView,
    a: Seq<TermEventView>,
    b: Seq<TermEventView>,
)
    ensures
        after_events(s, a + b, (a + b).len() as int) == after_events(
            after_events(s, a, a.len() as int),
            b,
            b.len() as int,
        ),
        after_events(s, Seq::<TermEventView>::empty(), 0) == s,
        a.len() == 1 ==> after_events(s, a, 1) == after_event(s, a[0]),
    decreases b.len(),
{
    reveal_with_fuel(after_events, 2);
    if b.len() > 0 {
        let c = b.drop_last();
        law_what_was_said_is_taken_in_order(s, a, c);
        let had = after_events(s, a, a.len() as int);
        lemma_same_events(s, a + c, a + b, (a + c).len() as int);
        lemma_same_events(had, c, b, c.len() as int);
    } else {
        assert(a + b =~= a);
    }
}

/// The text of the window is the text of its cells, row by row, each row with
/// a line feed at its end.
pub proof fn law_the_text_of_the_window(rows: Seq<Seq<Cell>>, t: TablesView, n: int)
    requires
        0 <= n < rows.len(),
    ensures
        rows_text(rows, t, n).is_prefix_of(rows_text(rows, t, n + 1)),
        rows_text(rows, t, n + 1).last() == '\n',
        rows_text(rows, t, 0) == Seq::<char>::empty(),
        forall|k: int|
            0 <= k < rows[n].len() ==> {
                let text = cells_text(rows[n], t, k + 1);
                &&& #[trigger] cells_text(rows[n], t, k + 1) == cells_text(rows[n], t, k)
                    + cell_text(rows[n][k], t)
                &&& text.len() >= cells_text(rows[n], t, k).len()
            },
        rows_text(rows, t, n + 1).len() == rows_text(rows, t, n).len() + cells_text(
            rows[n],
            t,
            rows[n].len() as int,
        ).len() + 1,
{
}

/// The text of a line is read from its first column to its last, but for the
/// second half of a wide character at its start and a gap at the end of the
/// oldest line.
pub proof fn law_a_line_is_read_from_edge_to_edge(v: ScreenView, line: int)
    ensures
        ({
            let torn = v.at(line, 0).flags & 0x0040 == 0x0040;
            let gap = line == -v.history && v.at(line, v.columns - 1).flags & 0x0400 == 0x0400;
            let (from, to) = line_bounds_of(v, line);
            &&& from == if torn {
                1int
            } else {
                0
            }
            &&& to == if gap {
                v.columns - 2
            } else {
                v.columns - 1
            }
        }),
{
}

/// Selecting changes nothing on the screen but what is selected, and has every
/// row drawn again. A selection runs between the places that its ends name.
pub proof fn law_selecting_draws_every_row_again(c: CoreView, s: Selection, r: int)
    requires
        0 <= r < c.mirror.rows.len(),
    ensures
        selecting(c, None).screen.selected is None,
        selecting(c, Some(s)).screen.cells == c.screen.cells,
        selecting(c, Some(s)).screen.cursor == c.screen.cursor,
        selecting(c, Some(s)).screen.offset == c.screen.offset,
        selecting(c, Some(s)).mirror.rows == c.mirror.rows,
        selecting(c, Some(s)).mirror.dirty.len() == c.mirror.rows.len(),
        selecting(c, Some(s)).mirror.dirty[r],
        selecting(c, None).mirror.dirty[r],
        s.kind is Simple ==> selecting(c, Some(s)).screen.selected == selection_range(
            c.screen.columns,
            -c.screen.history,
            c.screen.lines - 1,
            false,
            grid_place(c.screen, s.start),
            grid_place(c.screen, s.end),
        ),
        s.kind is Block && !(grid_place(c.screen, s.start).0 > grid_place(c.screen, s.end).0)
            ==> selecting(c, Some(s)).screen.selected == selection_range(
            c.screen.columns,
            -c.screen.history,
            c.screen.lines - 1,
            true,
            grid_place(c.screen, s.start),
            grid_place(c.screen, s.end),
        ),
        selecting(c, Some(s)).sink == c.sink,
        selecting(c, Some(s)).sniffer == c.sniffer,
{
}

/// A new terminal has its size, no history, nothing selected, and the cursor at
/// its corner; it keeps as much history as it is told.
pub proof fn law_a_new_terminal_is_empty(cols: u16, rows: u16, scrollback: u32)
    ensures
        ({
            let c = fresh_core(cols, rows, scrollback);
            &&& c.screen.columns == cols && c.screen.lines == rows
            &&& c.screen.history == 0 && c.screen.offset == 0
            &&& c.screen.cursor == (0int, 0int)
            &&& c.screen.selected is None
            &&& c.screen.shape is Block
            &&& c.mirror.cols == cols && c.mirror.rows.len() == rows
            &&& c.keeps == scrollback
            &&& c.stream.len() == 0
            &&& c.sink.replies.len() == 0 && c.sink.events.len() == 0 && c.sink.title is None
            &&& c.sniffer.events.len() == 0
        }),
{
}

} // verus!
