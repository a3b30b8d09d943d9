//! Find in scrollback.
//!
//! Matches are shown by drawing rectangles under the text. They are never
//! written into cells: a mark in a cell would survive a reflow, end up in what
//! the user copies, and turn a search into a repaint. Closing find leaves no
//! trace.

use vstd::prelude::*;

use crate::atlas::{Atlas, GlyphKey};
use crate::grid::{InstanceBuffers, QuadInstance};
use crate::material::{role_index, Fraction, Material, MaterialView, Role};
use crate::overlay::{
    cells_wide, fill, fill_of, panel, panel_of, plain_run, render_drawing, rendered, text_width,
    width_of, Drawing, DrawingView, FieldView, OverlayMetrics, RunView, TextField, TextRun,
};
use crate::raster::{control, held, is_control, nearest, Bitmap};
use crate::search::{found, nearest_to, Match, Search, SearchView};
use crate::text::{decimal_text, push_decimal, push_text, string_of};

verus! {

/// What find holds.
#[verifier::ext_equal]
pub struct FindView {
    pub open: bool,
    pub query: FieldView,
    pub search: SearchView,
    /// Whether the query changed since the last search.
    pub dirty: bool,
}

/// Find in scrollback.
#[derive(Debug, Clone)]
pub struct Find {
    open: bool,
    query: TextField,
    search: Search,
    /// The search reads every line, so it is the caller who runs it, and not
    /// while drawing.
    dirty: bool,
}

impl View for Find {
    type V = FindView;

    closed spec fn view(&self) -> FindView {
        FindView {
            open: self.open,
            query: self.query@,
            search: self.search@,
            dirty: self.dirty,
        }
    }
}

/// The readout: which match is current out of how many, that there are none, or
/// nothing without a query.
pub open spec fn status_text(f: FindView) -> Seq<char> {
    if f.query.text.len() == 0 {
        Seq::empty()
    } else if f.search.matches.len() > 0 {
        decimal_text(f.search.current + 1) + " / "@ + decimal_text(f.search.matches.len() as int)
    } else {
        "no results"@
    }
}

/// Where find shows things, in hundredths of a pixel.
pub struct FindPlace {
    pub metrics: OverlayMetrics,
    pub first_line: i32,
    pub rows: u16,
    pub grid: (i64, i64),
}

/// The columns that a match covers.
pub open spec fn columns_covered(m: Match) -> int {
    if m.end >= m.start {
        m.end - m.start
    } else {
        m.end - m.start + 0x10000
    }
}

/// How a match is shown: nothing where its line is out of sight, and otherwise a
/// rectangle, brighter for the current match.
pub open spec fn highlight_of(
    m: Match,
    current: Option<Match>,
    material: MaterialView,
    at: FindPlace,
) -> Option<QuadInstance> {
    let row = m.line - at.first_line;
    let cw = at.metrics.cell_width;
    let ch = at.metrics.cell_height;
    if row < 0 || row >= at.rows {
        None
    } else {
        let is_current = current == Some(m);
        Some(
            fill_of(
                (
                    (at.grid.0 + width_of(m.start as int, cw)) as i128,
                    (at.grid.1 + width_of(row, ch)) as i128,
                ),
                (width_of(columns_covered(m), cw) as i128, (100 * ch) as i128),
                material.roles[role_index(
                    if is_current {
                        Role::Accent
                    } else {
                        Role::Info
                    },
                )],
                if is_current {
                    Fraction { num: 55, den: 100 }
                } else {
                    Fraction { num: 28, den: 100 }
                },
            ),
        )
    }
}

/// The rectangles of the first `n` matches.
pub open spec fn highlights_of(
    matches: Seq<Match>,
    current: Option<Match>,
    material: MaterialView,
    at: FindPlace,
    n: int,
) -> Seq<QuadInstance>
    decreases n,
{
    if n <= 0 {
        Seq::empty()
    } else {
        let rest = highlights_of(matches, current, material, at, n - 1);
        match highlight_of(matches[n - 1], current, material, at) {
            Some(q) => rest.push(q),
            None => rest,
        }
    }
}

/// The width of the bar.
pub open spec fn bar_width(m: OverlayMetrics) -> int {
    held(40 * m.viewport.0, 26000, 52000)
}

/// The left edge of the bar: at the right of the window, and inside it.
pub open spec fn bar_left(m: OverlayMetrics) -> int {
    let x = 100 * m.viewport.0 - bar_width(m) - 100 * m.pad();
    100 * nearest(
        if x > 0 {
            x
        } else {
            0
        },
        100,
    )
}

/// What find shows: the matches in sight, and a bar with the query, a caret that
/// does not blink, and the readout.
pub open spec fn find_drawing(f: FindView, material: MaterialView, at: FindPlace) -> DrawingView {
    let m = at.metrics;
    let pad = m.pad();
    let left = bar_left(m);
    let x = left + 100 * pad;
    let y = 100 * pad + 25 * pad;
    let typed = x + width_of("⌕ "@.len() as int, m.cell_width);
    let status = status_text(f);
    let accent = material.roles[role_index(Role::Accent)];
    let line = seq![
        plain_run("⌕ "@, (x as i128, y as i128), accent),
        plain_run(
            f.query.text,
            (typed as i128, y as i128),
            material.roles[role_index(Role::Foreground)],
        ),
    ];
    DrawingView {
        quads: highlights_of(
            f.search.matches,
            f.search.current_match(),
            material,
            at,
            f.search.matches.len() as int,
        ) + seq![
            panel_of(
                (left as i128, (100 * pad) as i128),
                (bar_width(m) as i128, (100 * m.row() + 50 * pad) as i128),
                material,
                Fraction { num: 1, den: 1 },
            ),
            fill_of(
                ((typed + width_of(f.query.caret, m.cell_width)) as i128, y as i128),
                (200, (100 * m.cell_height) as i128),
                accent,
                Fraction { num: 90, den: 100 },
            ),
        ],
        runs: if status.len() == 0 {
            line
        } else {
            line.push(
                plain_run(
                    status,
                    (
                        (left + bar_width(m) - 100 * pad - width_of(
                            status.len() as int,
                            m.cell_width,
                        )) as i128,
                        y as i128,
                    ),
                    material.roles[role_index(
                        if f.search.matches.len() == 0 {
                            Role::Error
                        } else {
                            Role::Dim
                        },
                    )],
                ),
            )
        },
    }
}

impl Find {
    pub closed spec fn wf(self) -> bool {
        self.query.wf() && self.search.wf()
    }

    pub fn new() -> (f: Find)
        ensures
            f.wf(),
            !f@.open,
            !f@.dirty,
            f@.query.text.len() == 0,
            f@.search.matches.len() == 0,
    {
        Find { open: false, query: TextField::new(), search: Search::new(), dirty: false }
    }

    pub fn is_open(&self) -> (yes: bool)
        ensures
            yes == self@.open,
    {
        self.open
    }

    pub fn query(&self) -> (q: &str)
        ensures
            q@ == self@.query.text,
    {
        self.query.text()
    }

    pub fn search(&self) -> (s: &Search)
        ensures
            s@ == self@.search,
            self.wf() ==> s.wf(),
    {
        &self.search
    }

    pub fn needs_search(&self) -> (yes: bool)
        ensures
            yes == self@.dirty,
    {
        self.dirty
    }

    /// Opens the bar. The query survives: searching for the same thing again is
    /// what one mostly does.
    pub fn open(&mut self)
        requires
            old(self).wf(),
        ensures
            final(self).wf(),
            final(self)@ == (FindView { open: true, dirty: true, ..old(self)@ }),
    {
        self.open = true;
        self.dirty = true;
    }

    /// Closes the bar, which drops the matches and keeps the query.
    pub fn close(&mut self)
        requires
            old(self).wf(),
        ensures
            final(self).wf(),
            !final(self)@.open,
            !final(self)@.dirty,
            final(self)@.query == old(self)@.query,
            final(self)@.search.query.len() == 0,
            final(self)@.search.matches.len() == 0,
    {
        self.open = false;
        self.search.clear();
        self.dirty = false;
    }

    /// Types a character, and says whether anything changed.
    pub fn type_char(&mut self, ch: char) -> (changed: bool)
        requires
            old(self).wf(),
        ensures
            final(self).wf(),
            changed == (old(self)@.open && !control(ch)),
            final(self)@ == if changed {
                FindView { query: old(self)@.query.typed(ch), dirty: true, ..old(self)@ }
            } else {
                old(self)@
            },
    {
        if !self.open || is_control(ch) {
            return false;
        }
        self.query.insert(ch);
        self.dirty = true;
        true
    }

    /// Deletes the character before the caret, and says whether anything
    /// changed.
    pub fn backspace(&mut self) -> (changed: bool)
        requires
            old(self).wf(),
        ensures
            final(self).wf(),
            changed == (old(self)@.open && old(self)@.query.caret > 0),
            final(self)@ == if changed {
                FindView { query: old(self)@.query.erased(), dirty: true, ..old(self)@ }
            } else {
                old(self)@
            },
    {
        if !self.open {
            return false;
        }
        if !self.query.backspace() {
            return false;
        }
        self.dirty = true;
        true
    }

    /// Searches `lines`, each given with its number, and makes the match nearest
    /// to `focus_line` current.
    pub fn run(&mut self, lines: &[(i32, &str)], focus_line: i32)
        requires
            old(self).wf(),
        ensures
            final(self).wf(),
            final(self)@.open == old(self)@.open,
            final(self)@.query == old(self)@.query,
            !final(self)@.dirty,
            final(self)@.search.query == old(self)@.query.text,
            crate::search::ordered(final(self)@.search.matches),
            old(self)@.query.text.len() == 0 ==> final(self)@.search.matches.len() == 0,
            old(self)@.query.text.len() > 0 ==> final(self)@.search.matches.to_multiset() == found(
                old(self)@.query.text,
                lines@,
                lines@.len() as int,
            ).to_multiset(),
            final(self)@.search.matches.len() > 0 ==> nearest_to(
                final(self)@.search.matches,
                focus_line,
                final(self)@.search.current,
            ),
    {
        self.search.run(self.query.text(), lines);
        self.search.focus_near(focus_line);
        self.dirty = false;
    }

    pub fn next(&mut self) -> (m: Option<Match>)
        requires
            old(self).wf(),
        ensures
            final(self).wf(),
            final(self)@ == (FindView { search: old(self)@.search.advanced(), ..old(self)@ }),
            m == final(self)@.search.current_match(),
    {
        self.search.next()
    }

    pub fn previous(&mut self) -> (m: Option<Match>)
        requires
            old(self).wf(),
        ensures
            final(self).wf(),
            final(self)@ == (FindView { search: old(self)@.search.retreated(), ..old(self)@ }),
            m == final(self)@.search.current_match(),
    {
        self.search.previous()
    }

    pub fn current(&self) -> (m: Option<Match>)
        ensures
            m == self@.search.current_match(),
    {
        self.search.current()
    }

    /// Which match is current out of how many, or that there are none.
    pub fn status(&self) -> (s: String)
        requires
            self.wf(),
        ensures
            s@ == status_text(self@),
    {
        if self.query.is_empty() {
            return String::new();
        }
        match self.search.position() {
            Some(position) => {
                let mut v: Vec<char> = Vec::new();
                push_decimal(position, &mut v);
                push_text(" / ", &mut v);
                push_decimal(self.search.len(), &mut v);
                let n: usize = v.len();
                assert(v@ =~= status_text(self@));
                assert(v@.subrange(0, n as int) =~= v@);
                string_of(&v, 0, n)
            },
            None => "no results".to_owned(),
        }
    }

    /// What find shows when it is open. A match out of sight is left out rather
    /// than moved to the edge.
    pub fn drawing(
        &self,
        material: &Material,
        metrics: OverlayMetrics,
        first_visible_line: i32,
        visible_rows: u16,
        grid_origin: (i64, i64),
    ) -> (d: Drawing)
        requires
            self.wf(),
            material.wf(),
        ensures
            d.wf(),
            d@ == find_drawing(
                self@,
                material@,
                (FindPlace {
                    metrics,
                    first_line: first_visible_line,
                    rows: visible_rows,
                    grid: grid_origin,
                }),
            ),
    {
        let ghost at = FindPlace {
            metrics,
            first_line: first_visible_line,
            rows: visible_rows,
            grid: grid_origin,
        };
        let mut d = Drawing::new();
        let current = self.search.current();
        let matches = self.search.matches();
        let n: usize = matches.len();
        let mut i: usize = 0;
        while i < n
            invariant
                i <= n == matches@.len(),
                matches@ == self@.search.matches,
                current == self@.search.current_match(),
                material.wf(),
                at == (FindPlace {
                    metrics,
                    first_line: first_visible_line,
                    rows: visible_rows,
                    grid: grid_origin,
                }),
                d.wf(),
                d@.runs.len() == 0,
                d@.quads == highlights_of(matches@, current, material@, at, i as int),
            decreases n - i,
        {
            let m: Match = matches[i];
            let row: i64 = m.line as i64 - first_visible_line as i64;
            if row >= 0 && row < visible_rows as i64 {
                let across: i128 = cells_wide(m.start as usize, metrics.cell_width);
                let down: i128 = cells_wide(row as usize, metrics.cell_height);
                let width: i128 = cells_wide(
                    m.end.wrapping_sub(m.start) as usize,
                    metrics.cell_width,
                );
                let is_current: bool = match current {
                    Some(c) => c == m,
                    None => false,
                };
                d.quads.push(
                    fill(
                        (grid_origin.0 as i128 + across, grid_origin.1 as i128 + down),
                        (width, 100 * metrics.cell_height as i128),
                        material.role(
                            if is_current {
                                Role::Accent
                            } else {
                                Role::Info
                            },
                        ),
                        if is_current {
                            Fraction { num: 55, den: 100 }
                        } else {
                            Fraction { num: 28, den: 100 }
                        },
                    ),
                );
            }
            i += 1;
        }
        let pad: i128 = metrics.padding() as i128;
        let row: i128 = metrics.row_height() as i128;
        let view: i128 = metrics.viewport.0 as i128;
        let width: i128 = if 40 * view < 26000 {
            26000
        } else if 40 * view > 52000 {
            52000
        } else {
            40 * view
        };
        let room: i128 = 100 * view - width - 100 * pad;
        let held_room: i128 = if room > 0 {
            room
        } else {
            0
        };
        let left: i128 = 100 * ((2 * held_room + 100) / 200);
        let x: i128 = left + 100 * pad;
        let y: i128 = 100 * pad + 25 * pad;
        let accent = material.role(Role::Accent);
        d.quads.push(
            panel(
                (left, 100 * pad),
                (width, 100 * row + 50 * pad),
                material,
                Fraction { num: 1, den: 1 },
            ),
        );
        let typed: i128 = x + text_width("⌕ ", metrics);
        d.push_run(TextRun::plain("⌕ ", (x, y), accent));
        d.push_run(
            TextRun::plain(self.query.text(), (typed, y), material.role(Role::Foreground)),
        );
        d.quads.push(
            fill(
                (typed + cells_wide(self.query.caret(), metrics.cell_width), y),
                (200, 100 * metrics.cell_height as i128),
                accent,
                Fraction { num: 90, den: 100 },
            ),
        );
        let status = self.status();
        let wide: i128 = text_width(status.as_str(), metrics);
        if !is_empty_text(status.as_str()) {
            d.push_run(
                TextRun::plain(
                    status.as_str(),
                    (left + width - 100 * pad - wide, y),
                    material.role(
                        if self.search.is_empty() {
                            Role::Error
                        } else {
                            Role::Dim
                        },
                    ),
                ),
            );
        }
        assert(d@ =~= find_drawing(self@, material@, at));
        d
    }

    /// Draws the bar and the matches in sight.
    pub fn render<R: Fn(GlyphKey, Option<&str>) -> Option<Bitmap>>(
        &self,
        atlas: &mut Atlas,
        font: &R,
        material: &Material,
        metrics: OverlayMetrics,
        first_visible_line: i32,
        visible_rows: u16,
        grid_origin: (i64, i64),
        out: &mut InstanceBuffers,
    )
        requires
            self.wf(),
            material.wf(),
            old(atlas).wf(),
            forall|key: GlyphKey, text: Option<&str>| #[trigger] call_requires(*font, (key, text)),
        ensures
            final(atlas).wf(),
            !self@.open ==> *final(atlas) == *old(atlas) && *final(out) == *old(out),
            self@.open ==> rendered(
                find_drawing(
                    self@,
                    material@,
                    (FindPlace {
                        metrics,
                        first_line: first_visible_line,
                        rows: visible_rows,
                        grid: grid_origin,
                    }),
                ),
                old(atlas)@,
                *old(out),
                *font,
                metrics.cell_width,
                final(atlas)@,
                *final(out),
            ),
    {
        if !self.open {
            return;
        }
        let d = self.drawing(material, metrics, first_visible_line, visible_rows, grid_origin);
        render_drawing(&d, atlas, font, metrics, out);
    }
}

impl Default for Find {
    fn default() -> (f: Find)
        ensures
            f.wf(),
            !f@.open,
            !f@.dirty,
            f@.query.text.len() == 0,
            f@.search.matches.len() == 0,
    {
        Find::new()
    }
}

fn is_empty_text(s: &str) -> (yes: bool)
    ensures
        yes == (s@.len() == 0),
{
    crate::text::chars_of(s).len() == 0
}

/// A bar starts inside the window, whatever the window's width; and in a window
/// that it fits in it ends inside, up to half a pixel of rounding.
pub proof fn law_the_bar_starts_in_the_window(m: OverlayMetrics)
    ensures
        0 <= bar_left(m),
        100 * m.viewport.0 >= bar_width(m) + 100 * m.pad() ==> bar_left(m) + bar_width(m) <= 100
            * m.viewport.0 + 50,
{
    assert(m.pad() >= 0);
    let x = 100 * m.viewport.0 - bar_width(m) - 100 * m.pad();
    if x > 0 {
        assert(100 * ((2 * x + 100) / 200) <= x + 50);
    }
}

/// What find says: nothing without a query, which match of how many, or that
/// there are none.
pub proof fn law_what_find_says(f: Find, s: String)
    requires
        f.wf(),
        call_ensures(Find::status, (&f,), s),
    ensures
        f@.query.text.len() == 0 ==> s@.len() == 0,
        f@.query.text.len() > 0 && f@.search.matches.len() == 0 ==> s@ == "no results"@,
        f@.query.text.len() > 0 && f@.search.matches.len() > 0 ==> s@ == decimal_text(
            f@.search.current + 1,
        ) + " / "@ + decimal_text(f@.search.matches.len() as int),
{
}

/// A match in sight is a rectangle over its cells, in the accent colour where it
/// is the current one; a match out of sight is not shown.
pub proof fn law_matches_are_marked_over_their_cells(
    m: Match,
    current: Option<Match>,
    material: MaterialView,
    at: FindPlace,
)
    requires
        m.start <= m.end,
    ensures
        m.line < at.first_line || m.line >= at.first_line + at.rows <==> highlight_of(
            m,
            current,
            material,
            at,
        ) is None,
        highlight_of(m, current, material, at) matches Some(q) ==> {
            let cw = at.metrics.cell_width;
            let ch = at.metrics.cell_height;
            let accent = material.roles[role_index(Role::Accent)];
            let info = material.roles[role_index(Role::Info)];
            &&& q.origin.0 == at.grid.0 + 100 * (m.start * cw)
            &&& q.origin.1 == at.grid.1 + 100 * ((m.line - at.first_line) * ch)
            &&& q.size.0 == 100 * ((m.end - m.start) * cw)
            &&& q.size.1 == 100 * ch
            &&& current == Some(m) ==> q.fill.r == accent.r && q.fill.g == accent.g && q.fill.b
                == accent.b && q.fill.a == 140
            &&& current != Some(m) ==> q.fill.r == info.r && q.fill.g == info.g && q.fill.b
                == info.b && q.fill.a == 71
        },
{
    let cw = at.metrics.cell_width as int;
    let ch = at.metrics.cell_height as int;
    let row = m.line - at.first_line;
    let n = m.end - m.start;
    assert(m.start * (100 * cw) == 100 * (m.start * cw) && n * (100 * cw) == 100 * (n * cw) && row
        * (100 * ch) == 100 * (row * ch)) by (nonlinear_arith);
    assert(0 <= m.start * (100 * cw) <= 65535 * 6553500 && 0 <= n * (100 * cw) <= 65535 * 6553500)
        by (nonlinear_arith)
        requires
            0 <= m.start <= 65535,
            0 <= n <= 65535,
            0 <= cw <= 65535,
    ;
    if 0 <= row < at.rows {
        assert(0 <= row * (100 * ch) <= 65535 * 6553500) by (nonlinear_arith)
            requires
                0 <= row <= 65535,
                0 <= ch <= 65535,
        ;
        let bright = Fraction { num: 55, den: 100 };
        let faint = Fraction { num: 28, den: 100 };
        assert(bright.part() == 55);
        assert(bright.level() == (2 * 255 * 55 + 100) / 200);
        assert(faint.part() == 28);
        assert(faint.level() == (2 * 255 * 28 + 100) / 200);
    }
}

/// Every match in sight is marked, and nothing else is.
pub proof fn law_every_match_in_sight_is_marked(
    matches: Seq<Match>,
    current: Option<Match>,
    material: MaterialView,
    at: FindPlace,
    n: int,
    k: int,
)
    requires
        0 <= n <= matches.len(),
    ensures
        ({
            let marks = highlights_of(matches, current, material, at, n);
            &&& 0 <= k < n && at.first_line <= matches[k].line < at.first_line + at.rows
                ==> marks.contains(highlight_of(matches[k], current, material, at)->0)
            &&& 0 <= k < marks.len() ==> exists|i: int|
                0 <= i < n && highlight_of(#[trigger] matches[i], current, material, at) == Some(
                    marks[k],
                )
            &&& marks.len() <= n
        }),
    decreases n,
{
    if n > 0 {
        law_every_match_in_sight_is_marked(matches, current, material, at, n - 1, k);
        let rest = highlights_of(matches, current, material, at, n - 1);
        let marks = highlights_of(matches, current, material, at, n);
        let last = highlight_of(matches[n - 1], current, material, at);
        if last is Some {
            assert(marks.last() == last->0);
            assert(marks[rest.len() as int] == last->0);
        }
        if 0 <= k < n && at.first_line <= matches[k].line < at.first_line + at.rows && k < n - 1 {
            let want = highlight_of(matches[k], current, material, at)->0;
            let i = choose|i: int| 0 <= i < rest.len() && rest[i] == want;
            assert(marks[i] == want);
        }
        if 0 <= k < marks.len() {
            if k < rest.len() {
                assert(marks[k] == rest[k]);
            } else {
                assert(highlight_of(matches[n - 1], current, material, at) == Some(marks[k]));
            }
        }
    }
}

/// The bar is two fifths of the window wide, but between 260 and 520 pixels, and
/// stands a padding from the window's right edge, to the nearest pixel.
pub proof fn law_the_bar_stands_at_the_right(m: OverlayMetrics)
    ensures
        650 <= m.viewport.0 <= 1300 ==> 5 * bar_width(m) == 200 * m.viewport.0,
        m.viewport.0 < 650 ==> bar_width(m) == 26000,
        m.viewport.0 > 1300 ==> bar_width(m) == 52000,
        100 * m.viewport.0 >= bar_width(m) + 100 * m.pad() ==> -50 <= bar_left(m) + bar_width(m)
            + 100 * m.pad() - 100 * m.viewport.0 <= 50,
        bar_left(m) % 100 == 0,
{
    let x = 100 * m.viewport.0 - bar_width(m) - 100 * m.pad();
    assert(m.pad() >= 0);
    if x >= 0 {
        assert(-50 <= 100 * ((2 * x + 100) / 200) - x <= 50);
    }
}

/// The bar shows the query behind its sign, the caret behind as many characters
/// of it as the caret is in, and the readout up to the padding at its right, as
/// an error where nothing was found.
pub proof fn law_the_bar_shows_the_query(f: FindView, material: MaterialView, at: FindPlace)
    requires
        f.query.wf(),
        f.query.text.len() <= usize::MAX,
    ensures
        ({
            let d = find_drawing(f, material, at);
            let cw = at.metrics.cell_width;
            let caret = d.quads.last();
            &&& d.runs.len() >= 2
            &&& d.runs[1].text == f.query.text
            &&& d.runs[1].color == material.roles[role_index(Role::Foreground)]
            &&& d.runs[1].origin.0 == d.runs[0].origin.0 + 200 * cw
            &&& d.runs[1].origin.1 == d.runs[0].origin.1
            &&& caret.origin.0 == d.runs[1].origin.0 + 100 * (f.query.caret * cw)
            &&& caret.origin.1 == d.runs[1].origin.1
            &&& caret.size.1 == 100 * at.metrics.cell_height
            &&& d.runs.len() == 3 <==> status_text(f).len() > 0
            &&& d.runs.len() == 3 ==> d.runs[2].text == status_text(f)
            &&& d.runs.len() == 3 ==> (d.runs[2].color == material.roles[role_index(
                if f.search.matches.len() == 0 {
                    Role::Error
                } else {
                    Role::Dim
                },
            )])
            &&& d.quads.len() == highlights_of(
                f.search.matches,
                f.search.current_match(),
                material,
                at,
                f.search.matches.len() as int,
            ).len() + 2
        }),
{
    reveal_strlit("⌕ ");
    let cw = at.metrics.cell_width as int;
    let c = f.query.caret;
    assert("⌕ "@.len() == 2);
    assert(2 * (100 * cw) == 200 * cw);
    assert(c * (100 * cw) == 100 * (c * cw)) by (nonlinear_arith);
    assert(0 <= c * (100 * cw) <= 0x1_0000_0000_0000_0000 * 6553500) by (nonlinear_arith)
        requires
            0 <= c <= 0x1_0000_0000_0000_0000,
            0 <= cw <= 65535,
    ;
    let m = at.metrics;
    let x = 100 * m.viewport.0 - bar_width(m) - 100 * m.pad();
    assert(0 <= m.pad() <= 98304);
    assert(0 <= bar_left(m) <= 0x1_0000_0000_0000);
}

} // verus!
