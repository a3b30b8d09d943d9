//! The keyboard shortcut panel, as far as it is drawn. What a chord is and who
//! holds it is decided elsewhere; what comes here are texts.

use vstd::prelude::*;

use crate::atlas::{Atlas, GlyphKey};
use crate::fontset::Style;
use crate::grid::{InstanceBuffers, QuadInstance};
use crate::material::{role_index, Fraction, Material, MaterialView, Role};
use crate::overlay::{
    fill, fill_of, panel, panel_of, plain_run, render_drawing, rendered, text_width, width_of,
    Drawing, DrawingView, OverlayMetrics, RunView, TextRun,
};
use crate::raster::{held, nearest, round_div, Bitmap};
use crate::text::chars_of;

verus! {

/// One row: what the action is, and what it is bound to.
#[derive(Debug, Clone, Copy)]
pub struct ShortcutRow<'a> {
    pub label: &'a str,
    /// As it is shown, or empty for an action that is not bound.
    pub chord: &'a str,
}

/// How many rows are shown at once.
pub const VISIBLE_ROWS: usize = 10;

/// What the panel shows.
#[derive(Debug, Clone, Copy)]
pub struct ShortcutView<'a> {
    pub rows: &'a [ShortcutRow<'a>],
    pub selected: usize,
    /// Whether the panel waits for a combination to be pressed.
    pub capturing: bool,
    /// A line under the list: a conflict that was settled, or a chord that was
    /// refused.
    pub notice: Option<&'a str>,
}

/// The line under the list: a notice where there is one, otherwise what the keys
/// do.
pub open spec fn footer_text(notice: Option<Seq<char>>, capturing: bool) -> Seq<char> {
    match notice {
        Some(n) => n,
        None => if capturing {
            "esc cancel"@
        } else {
            "↑↓ move · space rebind · backspace unbind · esc close"@
        },
    }
}

/// The colour of the line under the list.
pub open spec fn footer_role(notice: Option<Seq<char>>) -> Role {
    match notice {
        Some(_) => Role::Warning,
        None => Role::Dim,
    }
}

/// What a notice says.
pub open spec fn notice_text(notice: Option<&str>) -> Option<Seq<char>> {
    match notice {
        Some(n) => Some(n@),
        None => None,
    }
}

/// What the panel says it can do, and how loudly. Keys are named, not drawn: at
/// this size their symbols do not read as keys.
pub fn footer_hint<'a>(notice: Option<&'a str>, capturing: bool) -> (h: (&'a str, Role))
    ensures
        h.0@ == footer_text(notice_text(notice), capturing),
        h.1 == footer_role(notice_text(notice)),
{
    match notice {
        Some(n) => (n, Role::Warning),
        None => if capturing {
            ("esc cancel", Role::Dim)
        } else {
            ("↑↓ move · space rebind · backspace unbind · esc close", Role::Dim)
        },
    }
}

/// How many of `n` rows are shown.
pub open spec fn shown_of(n: int) -> int {
    if n < VISIBLE_ROWS {
        n
    } else {
        VISIBLE_ROWS as int
    }
}

/// The first row shown: no further down than the selection needs.
pub open spec fn first_shown(selected: int, n: int) -> int {
    let wanted = if selected < VISIBLE_ROWS {
        0
    } else {
        selected - (VISIBLE_ROWS - 1)
    };
    let last = n - shown_of(n);
    if wanted < last {
        wanted
    } else {
        last
    }
}

/// A selected row is always among those shown.
pub proof fn law_the_selected_row_is_shown(selected: int, n: int)
    requires
        0 <= selected < n,
    ensures
        0 <= first_shown(selected, n) <= selected < first_shown(selected, n) + shown_of(n) <= n,
{
}

/// The width of the panel, in hundredths of a pixel as all that follows.
pub open spec fn panel_width(m: OverlayMetrics) -> int {
    held(62 * m.viewport.0, 42000, 76000)
}

/// The height of the panel: a header, the rows, a footer, and some space.
pub open spec fn panel_height(m: OverlayMetrics, n: int) -> int {
    100 * (m.row() * (shown_of(n) + 2)) + 100 * m.pad()
}

pub open spec fn panel_left(m: OverlayMetrics) -> int {
    100 * nearest(100 * m.viewport.0 - panel_width(m), 200)
}

/// The top of the panel: a third of the free space down, and never closer to the
/// edge than the padding.
pub open spec fn panel_top(m: OverlayMetrics, n: int) -> int {
    let third = nearest(100 * m.viewport.1 - panel_height(m, n), 300);
    100 * (if third > m.pad() {
        third
    } else {
        m.pad()
    })
}

/// Where the list starts.
pub open spec fn list_top(m: OverlayMetrics, n: int) -> int {
    panel_top(m, n) + 50 * m.pad() + 100 * m.row()
}

/// What is shown at the right of a row.
pub open spec fn shown_chord(chord: Seq<char>, waiting: bool) -> Seq<char> {
    if waiting {
        "press a combination…"@
    } else if chord.len() == 0 {
        "—"@
    } else {
        chord
    }
}

/// The colour of what is shown at the right of a row.
pub open spec fn chord_role(chord: Seq<char>, waiting: bool) -> Role {
    if waiting {
        Role::Warning
    } else if chord.len() == 0 {
        Role::Dim
    } else {
        Role::Accent
    }
}

/// The rectangle of the `k`th row shown, where it is the selected one.
pub open spec fn row_quads(
    v: ShortcutView<'_>,
    material: MaterialView,
    m: OverlayMetrics,
    k: int,
) -> Seq<QuadInstance> {
    let n = v.rows@.len() as int;
    let y = list_top(m, n) + 100 * (m.row() * k);
    if first_shown(v.selected as int, n) + k == v.selected {
        seq![
            fill_of(
                ((panel_left(m) + 50 * m.pad()) as i128, (y - 25 * m.pad()) as i128),
                ((panel_width(m) - 100 * m.pad()) as i128, (100 * m.row()) as i128),
                material.roles[role_index(Role::Accent)],
                if v.capturing {
                    Fraction { num: 42, den: 100 }
                } else {
                    Fraction { num: 22, den: 100 }
                },
            ),
        ]
    } else {
        Seq::empty()
    }
}

/// The texts of the `k`th row shown: what the action is, and at the right edge
/// what it is bound to.
pub open spec fn row_runs(
    v: ShortcutView<'_>,
    material: MaterialView,
    m: OverlayMetrics,
    k: int,
) -> Seq<RunView> {
    let n = v.rows@.len() as int;
    let index = first_shown(v.selected as int, n) + k;
    let row = v.rows@[index];
    let y = (list_top(m, n) + 100 * (m.row() * k)) as i128;
    let selected = index == v.selected;
    let shown = shown_chord(row.chord@, selected && v.capturing);
    seq![
        RunView {
            text: row.label@,
            origin: ((panel_left(m) + 100 * m.pad()) as i128, y),
            color: material.roles[role_index(Role::Foreground)],
            alpha: if selected {
                Fraction { num: 1, den: 1 }
            } else {
                Fraction { num: 82, den: 100 }
            },
            style: Style { bold: false, italic: false },
        },
        plain_run(
            shown,
            (
                (panel_left(m) + panel_width(m) - 100 * m.pad() - width_of(
                    shown.len() as int,
                    m.cell_width,
                )) as i128,
                y,
            ),
            material.roles[role_index(chord_role(row.chord@, selected && v.capturing))],
        ),
    ]
}

/// The rectangles of the first `n` rows shown.
pub open spec fn rows_quads(
    v: ShortcutView<'_>,
    material: MaterialView,
    m: OverlayMetrics,
    n: int,
) -> Seq<QuadInstance>
    decreases n,
{
    if n <= 0 {
        Seq::empty()
    } else {
        rows_quads(v, material, m, n - 1) + row_quads(v, material, m, n - 1)
    }
}

/// The texts of the first `n` rows shown.
pub open spec fn rows_runs(
    v: ShortcutView<'_>,
    material: MaterialView,
    m: OverlayMetrics,
    n: int,
) -> Seq<RunView>
    decreases n,
{
    if n <= 0 {
        Seq::empty()
    } else {
        rows_runs(v, material, m, n - 1) + row_runs(v, material, m, n - 1)
    }
}

/// What the panel shows: a header, the rows around the selection, and a footer.
pub open spec fn shortcuts_drawing(
    v: ShortcutView<'_>,
    material: MaterialView,
    m: OverlayMetrics,
) -> DrawingView {
    let n = v.rows@.len() as int;
    let x = (panel_left(m) + 100 * m.pad()) as i128;
    let notice = notice_text(v.notice);
    DrawingView {
        quads: seq![
            panel_of(
                (panel_left(m) as i128, panel_top(m, n) as i128),
                (panel_width(m) as i128, panel_height(m, n) as i128),
                material,
                Fraction { num: 1, den: 1 },
            ),
        ] + rows_quads(v, material, m, shown_of(n)),
        runs: seq![
            RunView {
                text: "Keyboard Shortcuts"@,
                origin: (x, (panel_top(m, n) + 50 * m.pad()) as i128),
                color: material.roles[role_index(Role::Foreground)],
                alpha: Fraction { num: 1, den: 1 },
                style: Style { bold: true, italic: false },
            },
        ] + rows_runs(v, material, m, shown_of(n)) + seq![
            plain_run(
                footer_text(notice, v.capturing),
                (x, (list_top(m, n) + 100 * (m.row() * shown_of(n)) + 25 * m.pad()) as i128),
                material.roles[role_index(footer_role(notice))],
            ),
        ],
    }
}

/// Where the panel's parts are.
struct Places {
    left: i128,
    top: i128,
    list: i128,
    width: i128,
    pad: i128,
    row: i128,
}

impl Places {
    spec fn of(self, m: OverlayMetrics, n: int) -> bool {
        &&& self.left == panel_left(m)
        &&& self.top == panel_top(m, n)
        &&& self.list == list_top(m, n)
        &&& self.width == panel_width(m)
        &&& self.pad == m.pad()
        &&& self.row == m.row()
        &&& -0x1_0000_0000_0000 <= self.left <= 0x1_0000_0000_0000
        &&& 0 <= self.top <= 0x1_0000_0000_0000
        &&& 0 <= self.list <= 0x1_0000_0000_0000_0000
        &&& 0 <= self.width <= 76000
        &&& 0 <= self.pad <= 98303
        &&& 0 <= self.row <= 104856
    }
}

fn rows_tall(row: i128, n: usize) -> (h: i128)
    requires
        0 <= row <= 104856,
        n <= 12,
    ensures
        h == 100 * (row * n),
        0 <= h <= 100 * (104856 * 12),
{
    assert(0 <= row * n <= 104856 * 12) by (nonlinear_arith)
        requires
            0 <= row <= 104856,
            0 <= n <= 12,
    ;
    100 * (row * n as i128)
}

fn count_shown(n: usize) -> (s: usize)
    ensures
        s == shown_of(n as int),
        s <= VISIBLE_ROWS,
{
    if n < VISIBLE_ROWS {
        n
    } else {
        VISIBLE_ROWS
    }
}

fn draw_row(
    v: &ShortcutView<'_>,
    first: usize,
    k: usize,
    at: &Places,
    material: &Material,
    metrics: OverlayMetrics,
    d: &mut Drawing,
)
    requires
        material.wf(),
        at.of(metrics, v.rows@.len() as int),
        first == first_shown(v.selected as int, v.rows@.len() as int),
        k < shown_of(v.rows@.len() as int),
        old(d).wf(),
    ensures
        final(d).wf(),
        final(d)@.quads == old(d)@.quads + row_quads(*v, material@, metrics, k as int),
        final(d)@.runs == old(d)@.runs + row_runs(*v, material@, metrics, k as int),
{
    let n: usize = v.rows.len();
    assert(first + k < n);
    let index: usize = first + k;
    let row = &v.rows[index];
    let selected: bool = index == v.selected;
    let y: i128 = at.list + rows_tall(at.row, k);
    if selected {
        d.quads.push(
            fill(
                (at.left + 50 * at.pad, y - 25 * at.pad),
                (at.width - 100 * at.pad, 100 * at.row),
                material.role(Role::Accent),
                if v.capturing {
                    Fraction { num: 42, den: 100 }
                } else {
                    Fraction { num: 22, den: 100 }
                },
            ),
        );
    }
    d.push_run(
        TextRun {
            text: row.label.to_owned(),
            origin: (at.left + 100 * at.pad, y),
            color: material.role(Role::Foreground),
            alpha: if selected {
                Fraction { num: 1, den: 1 }
            } else {
                Fraction { num: 82, den: 100 }
            },
            style: Style { bold: false, italic: false },
        },
    );
    let unbound: bool = chars_of(row.chord).len() == 0;
    let shown: &str = if selected && v.capturing {
        "press a combination…"
    } else if unbound {
        "—"
    } else {
        row.chord
    };
    let role = if selected && v.capturing {
        Role::Warning
    } else if unbound {
        Role::Dim
    } else {
        Role::Accent
    };
    d.push_run(
        TextRun::plain(
            shown,
            (at.left + at.width - 100 * at.pad - text_width(shown, metrics), y),
            material.role(role),
        ),
    );
    assert(d@.quads =~= old(d)@.quads + row_quads(*v, material@, metrics, k as int));
    assert(d@.runs =~= old(d)@.runs + row_runs(*v, material@, metrics, k as int));
}

/// What the panel shows. A long list is shown as far as the selection needs it.
pub fn drawing(view: ShortcutView<'_>, material: &Material, metrics: OverlayMetrics) -> (d: Drawing)
    requires
        material.wf(),
    ensures
        d.wf(),
        d@ == shortcuts_drawing(view, material@, metrics),
{
    let n: usize = view.rows.len();
    let visible: usize = count_shown(n);
    let pad: i128 = metrics.padding() as i128;
    let row: i128 = metrics.row_height() as i128;
    let across: i128 = metrics.viewport.0 as i128;
    let width: i128 = if 62 * across < 42000 {
        42000
    } else if 62 * across > 76000 {
        76000
    } else {
        62 * across
    };
    let height: i128 = rows_tall(row, visible + 2) + 100 * pad;
    let left: i128 = 100 * round_div(100 * across - width, 200);
    let third: i128 = round_div(100 * metrics.viewport.1 as i128 - height, 300);
    let top: i128 = 100 * (if third > pad {
        third
    } else {
        pad
    });
    let list: i128 = top + 50 * pad + 100 * row;
    let at = Places { left, top, list, width, pad, row };
    assert(at.of(metrics, n as int));
    let mut d = Drawing::new();
    d.quads.push(panel((left, top), (width, height), material, Fraction { num: 1, den: 1 }));
    d.push_run(
        TextRun {
            text: "Keyboard Shortcuts".to_owned(),
            origin: (left + 100 * pad, top + 50 * pad),
            color: material.role(Role::Foreground),
            alpha: Fraction { num: 1, den: 1 },
            style: Style { bold: true, italic: false },
        },
    );
    let wanted: usize = if view.selected < VISIBLE_ROWS {
        0
    } else {
        view.selected - (VISIBLE_ROWS - 1)
    };
    let first: usize = if wanted < n - visible {
        wanted
    } else {
        n - visible
    };
    let ghost head = d@;
    assert(head.quads =~= head.quads + rows_quads(view, material@, metrics, 0));
    assert(head.runs =~= head.runs + rows_runs(view, material@, metrics, 0));
    let mut k: usize = 0;
    while k < visible
        invariant
            k <= visible == shown_of(n as int),
            n == view.rows@.len(),
            first == first_shown(view.selected as int, n as int),
            material.wf(),
            at.of(metrics, n as int),
            d.wf(),
            d@.quads == head.quads + rows_quads(view, material@, metrics, k as int),
            d@.runs == head.runs + rows_runs(view, material@, metrics, k as int),
        decreases visible - k,
    {
        draw_row(&view, first, k, &at, material, metrics, &mut d);
        assert(d@.quads =~= head.quads + rows_quads(view, material@, metrics, k + 1));
        assert(d@.runs =~= head.runs + rows_runs(view, material@, metrics, k + 1));
        k += 1;
    }
    let (hint, role) = footer_hint(view.notice, view.capturing);
    d.push_run(
        TextRun::plain(
            hint,
            (left + 100 * pad, list + rows_tall(row, visible) + 25 * pad),
            material.role(role),
        ),
    );
    assert(d@ =~= shortcuts_drawing(view, material@, metrics));
    d
}

/// Draws the panel.
pub fn render<R: Fn(GlyphKey, Option<&str>) -> Option<Bitmap>>(
    view: ShortcutView<'_>,
    atlas: &mut Atlas,
    font: &R,
    material: &Material,
    metrics: OverlayMetrics,
    out: &mut InstanceBuffers,
)
    requires
        material.wf(),
        old(atlas).wf(),
        forall|key: GlyphKey, text: Option<&str>| #[trigger] call_requires(*font, (key, text)),
    ensures
        final(atlas).wf(),
        rendered(
            shortcuts_drawing(view, material@, metrics),
            old(atlas)@,
            *old(out),
            *font,
            metrics.cell_width,
            final(atlas)@,
            *final(out),
        ),
{
    let d = drawing(view, material, metrics);
    render_drawing(&d, atlas, font, metrics, out);
}

/// The line under the list is the notice, as a warning, where there is one; else
/// it says what the keys do.
pub proof fn law_the_footer_says_what_matters(
    notice: Option<&str>,
    capturing: bool,
    h: (&str, Role),
)
    requires
        call_ensures(footer_hint, (notice, capturing), h),
    ensures
        notice matches Some(n) ==> h.0@ == n@ && h.1 == Role::Warning,
        notice is None ==> h.1 == Role::Dim,
        notice is None && capturing ==> h.0@ == "esc cancel"@,
        notice is None && !capturing ==> h.0@
            == "↑↓ move · space rebind · backspace unbind · esc close"@,
{
}

/// At most ten rows are shown: from the first while the selection is among the
/// first ten, and then up to the selection.
pub proof fn law_rows_follow_the_selection(selected: int, n: int)
    requires
        0 <= selected < n,
    ensures
        n <= 10 ==> shown_of(n) == n && first_shown(selected, n) == 0,
        n > 10 ==> shown_of(n) == 10,
        selected < 10 ==> first_shown(selected, n) == 0,
        selected >= 10 ==> first_shown(selected, n) == selected - 9,
{
}

/// The panel is 62 hundredths of the window wide, but between 420 and 760 pixels,
/// and in its middle, to the nearest pixel. Its top is a third of the free space
/// down, but at least the padding.
pub proof fn law_the_panel_stands_in_the_window(m: OverlayMetrics, n: int)
    requires
        m.viewport.0 >= 420,
    ensures
        678 <= m.viewport.0 <= 1225 ==> panel_width(m) == 62 * m.viewport.0,
        m.viewport.0 < 677 ==> panel_width(m) == 42000,
        m.viewport.0 > 1226 ==> panel_width(m) == 76000,
        -100 <= 2 * panel_left(m) + panel_width(m) - 100 * m.viewport.0 <= 100,
        panel_top(m, n) >= 100 * m.pad(),
        ({
            let free = 100 * m.viewport.1 - panel_height(m, n);
            panel_top(m, n) > 100 * m.pad() && free >= 0 ==> -150 <= 3 * panel_top(m, n) - free
                <= 150
        }),
        panel_height(m, n) == 100 * (m.row() * (shown_of(n) + 2)) + 100 * m.pad(),
{
    let free = 100 * m.viewport.0 - panel_width(m);
    assert(free >= 0);
    assert(-200 <= 400 * ((2 * free + 200) / 400) - 2 * free <= 200);
    let down = 100 * m.viewport.1 - panel_height(m, n);
    if down >= 0 {
        assert(-300 <= 600 * ((2 * down + 300) / 600) - 2 * down <= 300);
    }
}

/// A row shows its action and at the right its chord, a dash where there is none,
/// or that it waits where it is being rebound.
pub proof fn law_rows_show_their_chords(
    v: ShortcutView<'_>,
    material: MaterialView,
    m: OverlayMetrics,
    k: int,
)
    requires
        v.selected < v.rows@.len(),
        0 <= k < shown_of(v.rows@.len() as int),
    ensures
        ({
            let at = first_shown(v.selected as int, v.rows@.len() as int) + k;
            let row = v.rows@[at];
            let texts = row_runs(v, material, m, k);
            let quads = row_quads(v, material, m, k);
            let waiting = at == v.selected && v.capturing;
            &&& texts.len() == 2
            &&& texts[0].text == row.label@
            &&& waiting ==> texts[1].text == "press a combination…"@
            &&& !waiting && row.chord@.len() == 0 ==> texts[1].text == "—"@
            &&& !waiting && row.chord@.len() > 0 ==> texts[1].text == row.chord@
            &&& waiting ==> texts[1].color == material.roles[role_index(Role::Warning)]
            &&& !waiting && row.chord@.len() == 0 ==> texts[1].color == material.roles[role_index(
                Role::Dim,
            )]
            &&& !waiting && row.chord@.len() > 0 ==> texts[1].color == material.roles[role_index(
                Role::Accent,
            )]
            &&& texts[0].origin.1 == texts[1].origin.1
            &&& quads.len() == if at == v.selected {
                1int
            } else {
                0
            }
            &&& quads.len() == 1 ==> quads[0].size.1 == 100 * m.row()
            &&& quads.len() == 1 && v.capturing ==> quads[0].fill.a == 107
            &&& quads.len() == 1 && !v.capturing ==> quads[0].fill.a == 56
        }),
{
    let loud = Fraction { num: 42, den: 100 };
    let quiet = Fraction { num: 22, den: 100 };
    assert(loud.part() == 42);
    assert(loud.level() == (2 * 255 * 42 + 100) / 200);
    assert(quiet.part() == 22);
    assert(quiet.level() == (2 * 255 * 22 + 100) / 200);
    assert(0 <= m.row() <= 104857);
}

/// The panel has a bold title, then its rows in order, and a line under them a
/// quarter of the padding below the last.
pub proof fn law_the_panel_is_drawn_from_the_top(
    v: ShortcutView<'_>,
    material: MaterialView,
    m: OverlayMetrics,
    k: int,
)
    requires
        v.selected < v.rows@.len(),
        0 <= k < shown_of(v.rows@.len() as int),
    ensures
        ({
            let n = v.rows@.len() as int;
            let d = shortcuts_drawing(v, material, m);
            let last = d.runs.last();
            let rows = rows_runs(v, material, m, shown_of(n));
            &&& d.runs[0].text == "Keyboard Shortcuts"@
            &&& d.runs[0].style.bold && !d.runs[0].style.italic
            &&& d.runs[0].color == material.roles[role_index(Role::Foreground)]
            &&& d.runs.len() == rows.len() + 2
            &&& d.runs.subrange(1, d.runs.len() - 1) == rows
            &&& v.notice matches Some(t) ==> last.text == t@ && last.color
                == material.roles[role_index(Role::Warning)]
            &&& v.notice is None ==> last.color == material.roles[role_index(Role::Dim)]
            &&& last.origin.0 == d.runs[0].origin.0
            &&& d.quads[0].size.0 == panel_width(m)
            &&& d.quads.skip(1) == rows_quads(v, material, m, shown_of(n))
        }),
        rows_runs(v, material, m, 0).len() == 0,
        rows_quads(v, material, m, 0).len() == 0,
        rows_runs(v, material, m, k + 1) == rows_runs(v, material, m, k) + row_runs(
            v,
            material,
            m,
            k,
        ),
        rows_quads(v, material, m, k + 1) == rows_quads(v, material, m, k) + row_quads(
            v,
            material,
            m,
            k,
        ),
{
    let n = v.rows@.len() as int;
    let d = shortcuts_drawing(v, material, m);
    let rows = rows_runs(v, material, m, shown_of(n));
    assert(d.runs.subrange(1, d.runs.len() - 1) =~= rows);
    assert(d.quads.skip(1) =~= rows_quads(v, material, m, shown_of(n)));
}

} // verus!
