//! The command palette: every setting, theme and action behind one fuzzy field.
//!
//! An action's id is a flat `namespace.verb`. The same list is searched, shown
//! and dispatched on.

use vstd::prelude::*;

use crate::atlas::{Atlas, GlyphKey};
use crate::grid::{InstanceBuffers, QuadInstance};
use crate::material::{role_index, Fraction, Material, MaterialView, Rgb, Role};
use crate::overlay::{
    cells_wide, fill, fill_of, panel, panel_of, plain_run, render_drawing, rendered, text_width,
    width_of, Drawing, DrawingView, FieldView, OverlayMetrics, RunView, TextField, TextRun,
};
use crate::raster::{control, held, is_control, nearest, round_div, Bitmap};
use crate::search::{rank, ranking, texts, FuzzyMatch};
use crate::text::{chars_of, push_text, string_of};

verus! {

/// An action's texts.
#[verifier::ext_equal]
pub struct ActionView {
    pub id: Seq<char>,
    pub label: Seq<char>,
    pub shortcut: Seq<char>,
}

/// One thing that the palette can do.
#[derive(Debug, Clone, PartialEq, Eq)]
pub struct Action {
    /// `namespace.verb`, matched against and dispatched on.
    pub id: String,
    /// What a person reads.
    pub label: String,
    /// The key equivalent, empty where there is none.
    pub shortcut: String,
}

impl View for Action {
    type V = ActionView;

    open spec fn view(&self) -> ActionView {
        ActionView { id: self.id@, label: self.label@, shortcut: self.shortcut@ }
    }
}

impl Action {
    fn new(id: &str, label: &str, shortcut: &str) -> (a: Action)
        ensures
            a@ == action(id@, label@, shortcut@),
    {
        Action { id: id.to_owned(), label: label.to_owned(), shortcut: shortcut.to_owned() }
    }
}

/// An action, from its texts.
pub open spec fn action(id: Seq<char>, label: Seq<char>, shortcut: Seq<char>) -> ActionView {
    ActionView { id, label, shortcut }
}

/// The actions that are always there.
pub open spec fn fixed_actions() -> Seq<ActionView> {
    seq![
        action("session.next_tab"@, "Next Tab"@, "⌃⇥"@),
        action("session.previous_tab"@, "Previous Tab"@, "⌃⇧⇥"@),
        action("session.scroll_bottom"@, "Scroll to Bottom"@, "⌘↓"@),
        action("session.clear_selection"@, "Clear Selection"@, "⎋"@),
        action("blocks.next"@, "Next Command Block"@, "⌘↓"@),
        action("blocks.previous"@, "Previous Command Block"@, "⌘↑"@),
        action("blocks.fold"@, "Fold Command Block"@, ""@),
        action("settings.open"@, "Open Settings"@, "⌘,"@),
        action("settings.fx.cursor"@, "Caret Motion · Next Style"@, ""@),
        action("settings.fx.decay"@, "Toggle Caret Decay"@, ""@),
        action("settings.fx.blink"@, "Toggle Caret Blink"@, ""@),
        action("settings.fx.reduce"@, "Toggle Reduce Motion"@, ""@),
        action("settings.fx.blocks"@, "Toggle Block Gutter"@, ""@),
        action("settings.fx.depth"@, "Toggle Ambient Light"@, ""@),
    ]
}

/// The action that chooses a theme.
pub open spec fn theme_action(id: Seq<char>) -> ActionView {
    action("theme."@ + id, "Theme · "@ + id, ""@)
}

/// All actions: the fixed ones, and one for each theme.
pub open spec fn all_actions(themes: Seq<Seq<char>>) -> Seq<ActionView> {
    fixed_actions() + themes.map_values(|id: Seq<char>| theme_action(id))
}

/// What strings spell.
pub open spec fn spelled(s: Seq<String>) -> Seq<Seq<char>> {
    s.map_values(|t: String| t@)
}

/// What actions hold.
pub open spec fn action_views(a: Seq<Action>) -> Seq<ActionView> {
    a.map_values(|x: Action| x@)
}

/// The ids of actions.
pub open spec fn ids_of(a: Seq<ActionView>) -> Seq<Seq<char>> {
    a.map_values(|x: ActionView| x.id)
}

/// A text after another.
fn joined(a: &str, b: &str) -> (s: String)
    ensures
        s@ == a@ + b@,
{
    let mut v: Vec<char> = Vec::new();
    push_text(a, &mut v);
    push_text(b, &mut v);
    let n: usize = v.len();
    assert(v@.subrange(0, n as int) =~= a@ + b@);
    string_of(&v, 0, n)
}

/// The actions: a fixed set, and one for each theme, so that a user's theme
/// appears without anything here changing.
pub fn default_actions(theme_ids: &[String]) -> (actions: Vec<Action>)
    ensures
        action_views(actions@) == all_actions(spelled(theme_ids@)),
{
    let mut actions: Vec<Action> = Vec::new();
    actions.push(Action::new("session.next_tab", "Next Tab", "⌃⇥"));
    actions.push(Action::new("session.previous_tab", "Previous Tab", "⌃⇧⇥"));
    actions.push(Action::new("session.scroll_bottom", "Scroll to Bottom", "⌘↓"));
    actions.push(Action::new("session.clear_selection", "Clear Selection", "⎋"));
    actions.push(Action::new("blocks.next", "Next Command Block", "⌘↓"));
    actions.push(Action::new("blocks.previous", "Previous Command Block", "⌘↑"));
    actions.push(Action::new("blocks.fold", "Fold Command Block", ""));
    actions.push(Action::new("settings.open", "Open Settings", "⌘,"));
    actions.push(Action::new("settings.fx.cursor", "Caret Motion · Next Style", ""));
    actions.push(Action::new("settings.fx.decay", "Toggle Caret Decay", ""));
    actions.push(Action::new("settings.fx.blink", "Toggle Caret Blink", ""));
    actions.push(Action::new("settings.fx.reduce", "Toggle Reduce Motion", ""));
    actions.push(Action::new("settings.fx.blocks", "Toggle Block Gutter", ""));
    actions.push(Action::new("settings.fx.depth", "Toggle Ambient Light", ""));
    assert(action_views(actions@) =~= fixed_actions());
    let ghost themes = spelled(theme_ids@);
    let ghost of_themes = themes.map_values(|id: Seq<char>| theme_action(id));
    assert(action_views(actions@) =~= fixed_actions() + of_themes.take(0));
    let n: usize = theme_ids.len();
    let mut i: usize = 0;
    while i < n
        invariant
            i <= n == theme_ids@.len(),
            themes == spelled(theme_ids@),
            of_themes == themes.map_values(|id: Seq<char>| theme_action(id)),
            action_views(actions@) == fixed_actions() + of_themes.take(i as int),
        decreases n - i,
    {
        let id = theme_ids[i].as_str();
        let ghost had = actions@;
        let a = Action {
            id: joined("theme.", id),
            label: joined("Theme · ", id),
            shortcut: "".to_owned(),
        };
        assert(a@ == of_themes[i as int]);
        actions.push(a);
        assert(action_views(actions@) =~= action_views(had).push(a@));
        assert(of_themes.take(i + 1) =~= of_themes.take(i as int).push(a@));
        i += 1;
    }
    assert(of_themes.take(n as int) =~= of_themes);
    actions
}

/// How many results are shown at once: more would be scrolled rather than
/// scanned.
pub const VISIBLE_ROWS: usize = 8;

/// What the palette holds.
#[verifier::ext_equal]
pub struct PaletteView {
    pub open: bool,
    pub query: FieldView,
    pub actions: Seq<ActionView>,
    /// Actions that match, best first.
    pub ranked: Seq<(usize, FuzzyMatch)>,
    pub selected: int,
    /// The first row shown.
    pub scroll: int,
}

impl PaletteView {
    /// Whether the palette is sound: what is ranked are actions; an open palette
    /// ranks by its query; and the selected row is among those shown.
    pub open spec fn wf(self) -> bool {
        &&& self.query.wf()
        &&& forall|k: int|
            0 <= k < self.ranked.len() ==> (#[trigger] self.ranked[k]).0 < self.actions.len()
        &&& self.open ==> ranking(
            self.query.text,
            ids_of(self.actions),
            self.actions.len() as int,
            self.ranked,
        )
        &&& 0 <= self.scroll <= self.selected < self.scroll + VISIBLE_ROWS
        &&& self.ranked.len() == 0 ==> self.selected == 0
        &&& self.ranked.len() > 0 ==> self.selected < self.ranked.len()
    }

    /// The action of a result.
    pub open spec fn result(self, k: int) -> ActionView {
        self.actions[self.ranked[k].0 as int]
    }

    /// The selected action.
    pub open spec fn chosen(self) -> Option<ActionView> {
        if 0 <= self.selected < self.ranked.len() {
            Some(self.result(self.selected))
        } else {
            None
        }
    }

    /// With a row selected, and scrolled no further than needed to show it.
    pub open spec fn at(self, selected: int) -> PaletteView {
        PaletteView {
            selected,
            scroll: if selected < self.scroll {
                selected
            } else if selected >= self.scroll + VISIBLE_ROWS {
                selected + 1 - VISIBLE_ROWS
            } else {
                self.scroll
            },
            ..self
        }
    }

    /// The row after the selected one, and after the last the first.
    pub open spec fn row_after(self) -> int {
        if self.selected + 1 == self.ranked.len() {
            0
        } else {
            self.selected + 1
        }
    }

    /// The row before the selected one, and before the first the last.
    pub open spec fn row_before(self) -> int {
        if self.selected == 0 {
            self.ranked.len() - 1
        } else {
            self.selected - 1
        }
    }
}

/// Whether `after` is `before` with a query, ranked anew from the top.
pub open spec fn requeried(before: PaletteView, open: bool, query: FieldView, after: PaletteView) -> bool {
    &&& after.open == open
    &&& after.query == query
    &&& after.actions == before.actions
    &&& after.selected == 0
    &&& after.scroll == 0
    &&& ranking(
        query.text,
        ids_of(before.actions),
        before.actions.len() as int,
        after.ranked,
    )
}

/// The selected row is always one of those shown, wherever the selection moves.
pub proof fn law_the_selection_stays_in_sight(p: PaletteView, selected: int)
    requires
        p.wf(),
        0 <= selected < p.ranked.len(),
    ensures
        p.at(selected).wf(),
        p.at(selected).scroll <= selected < p.at(selected).scroll + VISIBLE_ROWS,
{
}

/// Moving down and up again, or up and down again, comes back to the same row.
pub proof fn law_moving_down_and_up_comes_back(p: PaletteView)
    requires
        p.wf(),
        p.ranked.len() > 0,
    ensures
        p.at(p.row_after()).row_before() == p.selected,
        p.at(p.row_before()).row_after() == p.selected,
{
}

/// The width of the panel.
pub open spec fn palette_width(m: OverlayMetrics) -> int {
    held(60 * m.viewport.0, 32000, 72000)
}

/// The left edge of the panel.
pub open spec fn palette_left(m: OverlayMetrics) -> int {
    100 * nearest(100 * m.viewport.0 - palette_width(m), 200)
}

/// The top edge of the panel.
pub open spec fn palette_top(m: OverlayMetrics) -> int {
    100 * nearest(12 * m.viewport.1, 100)
}

/// In a window at least as wide as the narrowest panel, the panel stays inside,
/// up to half a pixel of rounding.
pub proof fn law_the_palette_stays_in_the_window(m: OverlayMetrics)
    requires
        m.viewport.0 >= 320,
    ensures
        0 <= palette_left(m),
        palette_left(m) + palette_width(m) <= 100 * m.viewport.0 + 50,
{
    let free = 100 * m.viewport.0 - palette_width(m);
    assert(free >= 0);
    assert(100 * ((2 * free + 200) / 400) <= free / 2 + 50);
}

/// Where a result's text starts, in hundredths of a pixel.
pub open spec fn palette_text_x(m: OverlayMetrics) -> int {
    palette_left(m) + 100 * m.pad()
}

/// Where the `k`th row shown is.
pub open spec fn palette_row_y(m: OverlayMetrics, k: int) -> int {
    palette_top(m) + 100 * (m.row() * (k + 1)) + 50 * m.pad()
}

/// Where a result's id starts.
pub open spec fn palette_id_x(m: OverlayMetrics, a: ActionView) -> int {
    palette_text_x(m) + width_of(a.label.len() as int, m.cell_width) + 200 * m.cell_width
}

/// The line under a matched character.
pub open spec fn mark_of(m: OverlayMetrics, a: ActionView, k: int, position: usize, accent: Rgb) -> QuadInstance {
    fill_of(
        (
            (palette_id_x(m, a) + width_of(position as int, m.cell_width)) as i128,
            (palette_row_y(m, k) + 92 * m.cell_height) as i128,
        ),
        ((100 * m.cell_width) as i128, 150),
        accent,
        Fraction { num: 80, den: 100 },
    )
}

/// The rectangles of the `k`th row shown: the selection, and a line under each
/// character of the id that the query matched.
pub open spec fn row_quads(p: PaletteView, material: MaterialView, m: OverlayMetrics, k: int) -> Seq<
    QuadInstance,
> {
    let accent = material.roles[role_index(Role::Accent)];
    let a = p.result(p.scroll + k);
    let selection = if p.scroll + k == p.selected {
        seq![
            fill_of(
                (
                    (palette_left(m) + 50 * m.pad()) as i128,
                    (palette_row_y(m, k) - 15 * m.row()) as i128,
                ),
                ((palette_width(m) - 100 * m.pad()) as i128, (100 * m.row()) as i128),
                accent,
                Fraction { num: 22, den: 100 },
            ),
        ]
    } else {
        Seq::empty()
    };
    selection + p.ranked[p.scroll + k].1.positions@.map_values(
        |position: usize| mark_of(m, a, k, position, accent),
    )
}

/// The texts of the `k`th row shown: the label, the id that is matched against,
/// and the shortcut at the right edge.
pub open spec fn row_runs(p: PaletteView, material: MaterialView, m: OverlayMetrics, k: int) -> Seq<
    RunView,
> {
    let a = p.result(p.scroll + k);
    let y = palette_row_y(m, k) as i128;
    let dim = material.roles[role_index(Role::Dim)];
    let texts = seq![
        plain_run(
            a.label,
            (palette_text_x(m) as i128, y),
            material.roles[role_index(Role::Foreground)],
        ),
        plain_run(a.id, (palette_id_x(m, a) as i128, y), dim),
    ];
    if a.shortcut.len() == 0 {
        texts
    } else {
        texts.push(
            plain_run(
                a.shortcut,
                (
                    (palette_left(m) + palette_width(m) - 100 * m.pad() - width_of(
                        a.shortcut.len() as int,
                        m.cell_width,
                    )) as i128,
                    y,
                ),
                dim,
            ),
        )
    }
}

/// How many rows are shown.
pub open spec fn rows_shown(p: PaletteView) -> int {
    let left = p.ranked.len() - p.scroll;
    if left < VISIBLE_ROWS {
        left
    } else {
        VISIBLE_ROWS as int
    }
}

/// The rectangles of the first `n` rows.
pub open spec fn rows_quads(
    p: PaletteView,
    material: MaterialView,
    m: OverlayMetrics,
    n: int,
) -> Seq<QuadInstance>
    decreases n,
{
    if n <= 0 {
        Seq::empty()
    } else {
        rows_quads(p, material, m, n - 1) + row_quads(p, material, m, n - 1)
    }
}

/// The texts of the first `n` rows.
pub open spec fn rows_runs(p: PaletteView, material: MaterialView, m: OverlayMetrics, n: int) -> Seq<
    RunView,
>
    decreases n,
{
    if n <= 0 {
        Seq::empty()
    } else {
        rows_runs(p, material, m, n - 1) + row_runs(p, material, m, n - 1)
    }
}

/// The height of the panel: the query line, the rows, and some space.
pub open spec fn palette_height(p: PaletteView, m: OverlayMetrics) -> int {
    let rows = if p.ranked.len() < VISIBLE_ROWS {
        p.ranked.len() as int
    } else {
        VISIBLE_ROWS as int
    };
    100 * (m.row() * (rows + 1)) + 100 * m.pad()
}

/// What the palette shows: a panel, the query with a caret that does not blink,
/// and the results from the first row shown on.
pub open spec fn palette_drawing(p: PaletteView, material: MaterialView, m: OverlayMetrics) -> DrawingView {
    let x = palette_text_x(m);
    let y = palette_top(m) + 50 * m.pad();
    let typed = x + width_of("❯ "@.len() as int, m.cell_width);
    let accent = material.roles[role_index(Role::Accent)];
    DrawingView {
        quads: seq![
            panel_of(
                (palette_left(m) as i128, palette_top(m) as i128),
                (palette_width(m) as i128, palette_height(p, m) as i128),
                material,
                Fraction { num: 1, den: 1 },
            ),
            fill_of(
                ((typed + width_of(p.query.caret, m.cell_width)) as i128, y as i128),
                (200, (100 * m.cell_height) as i128),
                accent,
                Fraction { num: 90, den: 100 },
            ),
        ] + rows_quads(p, material, m, rows_shown(p)),
        runs: seq![
            plain_run("❯ "@, (x as i128, y as i128), accent),
            plain_run(
                p.query.text,
                (typed as i128, y as i128),
                material.roles[role_index(Role::Foreground)],
            ),
        ] + rows_runs(p, material, m, rows_shown(p)),
    }
}

/// The command palette.
#[derive(Debug, Clone)]
pub struct Palette {
    open: bool,
    query: TextField,
    actions: Vec<Action>,
    ranked: Vec<(usize, FuzzyMatch)>,
    selected: usize,
    scroll: usize,
}

impl View for Palette {
    type V = PaletteView;

    closed spec fn view(&self) -> PaletteView {
        PaletteView {
            open: self.open,
            query: self.query@,
            actions: action_views(self.actions@),
            ranked: self.ranked@,
            selected: self.selected as int,
            scroll: self.scroll as int,
        }
    }
}

/// Where the panel's parts are, in hundredths of a pixel.
struct Places {
    left: i128,
    top: i128,
    width: i128,
    pad: i128,
    row: i128,
}

impl Places {
    spec fn of(self, m: OverlayMetrics) -> bool {
        &&& self.left == palette_left(m)
        &&& self.top == palette_top(m)
        &&& self.width == palette_width(m)
        &&& self.pad == m.pad()
        &&& self.row == m.row()
        &&& -0x1_0000_0000_0000 <= self.left <= 0x1_0000_0000_0000
        &&& 0 <= self.top <= 0x1_0000_0000_0000
        &&& 0 <= self.width <= 72000
        &&& 0 <= self.pad <= 98303
        &&& 0 <= self.row <= 104856
    }

    fn new(m: OverlayMetrics) -> (p: Places)
        ensures
            p.of(m),
    {
        let view: i128 = m.viewport.0 as i128;
        let width: i128 = if 60 * view < 32000 {
            32000
        } else if 60 * view > 72000 {
            72000
        } else {
            60 * view
        };
        let left: i128 = 100 * round_div(100 * view - width, 200);
        let top: i128 = 100 * round_div(12 * m.viewport.1 as i128, 100);
        Places { left, top, width, pad: m.padding() as i128, row: m.row_height() as i128 }
    }
}

impl Palette {
    pub open spec fn wf(self) -> bool {
        self@.wf()
    }

    /// A closed palette over a set of actions, with all of them ranked.
    pub fn new(actions: Vec<Action>) -> (p: Palette)
        ensures
            p.wf(),
            !p@.open,
            p@.query.text.len() == 0,
            p@.actions == action_views(actions@),
            p@.selected == 0,
            p@.scroll == 0,
            ranking(
                Seq::empty(),
                ids_of(action_views(actions@)),
                actions@.len() as int,
                p@.ranked,
            ),
    {
        let mut p = Palette {
            open: false,
            query: TextField::new(),
            actions,
            ranked: Vec::new(),
            selected: 0,
            scroll: 0,
        };
        p.rerank();
        assert(p@.query.text =~= Seq::empty());
        p
    }

    pub fn is_open(&self) -> (yes: bool)
        ensures
            yes == self@.open,
    {
        self.open
    }

    pub fn query(&self) -> (q: &str)
        ensures
            q@ == self@.query.text,
    {
        self.query.text()
    }

    pub fn actions(&self) -> (a: &[Action])
        ensures
            action_views(a@) == self@.actions,
    {
        self.actions.as_slice()
    }

    /// The first row shown.
    pub fn scroll(&self) -> (s: usize)
        ensures
            s == self@.scroll,
    {
        self.scroll
    }

    /// The results, best first.
    pub fn results(&self) -> (r: Vec<&Action>)
        requires
            self.wf(),
        ensures
            r@.len() == self@.ranked.len(),
            forall|k: int| 0 <= k < r@.len() ==> (#[trigger] r@[k])@ == self@.result(k),
    {
        let mut r: Vec<&Action> = Vec::new();
        let n: usize = self.ranked.len();
        let mut i: usize = 0;
        while i < n
            invariant
                i <= n == self.ranked@.len(),
                self.wf(),
                r@.len() == i,
                forall|k: int| 0 <= k < i ==> (#[trigger] r@[k])@ == self@.result(k),
            decreases n - i,
        {
            assert(self@.ranked[i as int].0 < self.actions@.len());
            let index: usize = self.ranked[i].0;
            r.push(&self.actions[index]);
            i += 1;
        }
        r
    }

    pub fn selected(&self) -> (a: Option<&Action>)
        requires
            self.wf(),
        ensures
            match (a, self@.chosen()) {
                (Some(x), Some(y)) => x@ == y,
                (None, None) => true,
                _ => false,
            },
    {
        if self.selected < self.ranked.len() {
            assert(self@.ranked[self.selected as int].0 < self.actions@.len());
            let index: usize = self.ranked[self.selected].0;
            Some(&self.actions[index])
        } else {
            None
        }
    }

    /// Opens with a blank query: one that is remembered would make the first
    /// keystroke unpredictable.
    pub fn open(&mut self)
        requires
            old(self).wf(),
        ensures
            final(self).wf(),
            requeried(
                old(self)@,
                true,
                (FieldView { text: Seq::empty(), caret: 0 }),
                final(self)@,
            ),
    {
        self.open = true;
        self.query.clear();
        self.rerank();
        assert(self@.query =~= FieldView { text: Seq::empty(), caret: 0 });
    }

    /// Closes and forgets the query. What was ranked stays until the palette is
    /// opened again.
    pub fn close(&mut self)
        requires
            old(self).wf(),
        ensures
            final(self).wf(),
            final(self)@ == (PaletteView {
                open: false,
                query: FieldView { text: Seq::empty(), caret: 0 },
                ..old(self)@
            }),
    {
        self.open = false;
        self.query.clear();
        assert(self@.query =~= FieldView { text: Seq::empty(), caret: 0 });
    }

    /// Replaces the themes among the actions.
    pub fn set_theme_ids(&mut self, theme_ids: &[String])
        requires
            old(self).wf(),
        ensures
            final(self).wf(),
            requeried(
                (PaletteView { actions: all_actions(spelled(theme_ids@)), ..old(self)@ }),
                old(self)@.open,
                old(self)@.query,
                final(self)@,
            ),
    {
        self.actions = default_actions(theme_ids);
        self.rerank();
    }

    /// Ranks the actions by the query, and goes back to the best.
    fn rerank(&mut self)
        requires
            old(self)@.query.wf(),
        ensures
            final(self).wf(),
            requeried(old(self)@, old(self)@.open, old(self)@.query, final(self)@),
    {
        let mut keys: Vec<&str> = Vec::new();
        let n: usize = self.actions.len();
        let mut i: usize = 0;
        while i < n
            invariant
                i <= n == self.actions@.len(),
                keys@.len() == i,
                forall|k: int| 0 <= k < i ==> (#[trigger] keys@[k])@ == self.actions@[k].id@,
            decreases n - i,
        {
            keys.push(self.actions[i].id.as_str());
            i += 1;
        }
        assert(texts(keys@) =~= ids_of(self@.actions));
        let ranked = rank(self.query.text(), keys.as_slice());
        self.ranked = ranked;
        self.selected = 0;
        self.scroll = 0;
    }

    /// Types a character, and says whether anything changed.
    pub fn type_char(&mut self, ch: char) -> (changed: bool)
        requires
            old(self).wf(),
        ensures
            final(self).wf(),
            changed == (old(self)@.open && !control(ch)),
            !changed ==> *final(self) == *old(self),
            changed ==> requeried(
                old(self)@,
                true,
                old(self)@.query.typed(ch),
                final(self)@,
            ),
    {
        if !self.open || is_control(ch) {
            return false;
        }
        self.query.insert(ch);
        self.rerank();
        true
    }

    /// Deletes the character before the caret, and says whether anything
    /// changed.
    pub fn backspace(&mut self) -> (changed: bool)
        requires
            old(self).wf(),
        ensures
            final(self).wf(),
            changed == (old(self)@.open && old(self)@.query.caret > 0),
            !changed ==> final(self)@ == old(self)@,
            changed ==> requeried(old(self)@, true, old(self)@.query.erased(), final(self)@),
    {
        if !self.open {
            return false;
        }
        if !self.query.backspace() {
            return false;
        }
        self.rerank();
        true
    }

    /// Selects the next result, and after the last the first.
    pub fn select_next(&mut self) -> (moved: bool)
        requires
            old(self).wf(),
        ensures
            final(self).wf(),
            moved == (old(self)@.ranked.len() > 0),
            final(self)@ == if moved {
                old(self)@.at(old(self)@.row_after())
            } else {
                old(self)@
            },
    {
        let n: usize = self.ranked.len();
        if n == 0 {
            return false;
        }
        self.selected = if self.selected + 1 == n {
            0
        } else {
            self.selected + 1
        };
        self.follow_selection();
        true
    }

    /// Selects the result before, and before the first the last.
    pub fn select_previous(&mut self) -> (moved: bool)
        requires
            old(self).wf(),
        ensures
            final(self).wf(),
            moved == (old(self)@.ranked.len() > 0),
            final(self)@ == if moved {
                old(self)@.at(old(self)@.row_before())
            } else {
                old(self)@
            },
    {
        let n: usize = self.ranked.len();
        if n == 0 {
            return false;
        }
        self.selected = if self.selected == 0 {
            n - 1
        } else {
            self.selected - 1
        };
        self.follow_selection();
        true
    }

    fn follow_selection(&mut self)
        ensures
            final(self)@ == old(self)@.at(old(self)@.selected),
    {
        if self.selected < self.scroll {
            self.scroll = self.selected;
        } else if self.selected - self.scroll >= VISIBLE_ROWS {
            self.scroll = self.selected - (VISIBLE_ROWS - 1);
        }
    }

    /// Takes the selected action's id and closes. Where nothing is selected,
    /// nothing happens.
    pub fn accept(&mut self) -> (id: Option<String>)
        requires
            old(self).wf(),
        ensures
            final(self).wf(),
            match (id, old(self)@.chosen()) {
                (Some(s), Some(a)) => s@ == a.id && final(self)@ == (PaletteView {
                    open: false,
                    query: FieldView { text: Seq::empty(), caret: 0 },
                    ..old(self)@
                }),
                (None, None) => final(self)@ == old(self)@,
                _ => false,
            },
    {
        let id = match self.selected() {
            Some(a) => a.id.as_str().to_owned(),
            None => {
                return None;
            },
        };
        self.close();
        Some(id)
    }

    /// What the palette shows when it is open.
    pub fn drawing(&self, material: &Material, metrics: OverlayMetrics) -> (d: Drawing)
        requires
            self.wf(),
            material.wf(),
        ensures
            d.wf(),
            d@ == palette_drawing(self@, material@, metrics),
    {
        let at = Places::new(metrics);
        let accent = material.role(Role::Accent);
        let ranked: usize = self.ranked.len();
        let rows: i128 = if ranked < VISIBLE_ROWS {
            ranked as i128
        } else {
            VISIBLE_ROWS as i128
        };
        assert(0 <= at.row * (rows + 1) <= 104856 * 9) by (nonlinear_arith)
            requires
                0 <= at.row <= 104856,
                0 <= rows <= 8,
        ;
        let height: i128 = 100 * (at.row * (rows + 1)) + 100 * at.pad;
        let x: i128 = at.left + 100 * at.pad;
        let y: i128 = at.top + 50 * at.pad;
        let typed: i128 = x + text_width("❯ ", metrics);
        let mut d = Drawing::new();
        d.quads.push(
            panel(
                (at.left, at.top),
                (at.width, height),
                material,
                Fraction { num: 1, den: 1 },
            ),
        );
        d.push_run(TextRun::plain("❯ ", (x, y), accent));
        d.push_run(
            TextRun::plain(self.query.text(), (typed, y), material.role(Role::Foreground)),
        );
        d.quads.push(
            fill(
                (typed + cells_wide(self.query.caret(), metrics.cell_width), y),
                (200, 100 * metrics.cell_height as i128),
                accent,
                Fraction { num: 90, den: 100 },
            ),
        );
        let ghost head = d@;
        let shown: usize = if ranked - self.scroll < VISIBLE_ROWS {
            ranked - self.scroll
        } else {
            VISIBLE_ROWS
        };
        assert(head.quads =~= head.quads + rows_quads(self@, material@, metrics, 0));
        assert(head.runs =~= head.runs + rows_runs(self@, material@, metrics, 0));
        let mut k: usize = 0;
        while k < shown
            invariant
                k <= shown == rows_shown(self@) <= VISIBLE_ROWS,
                self.wf(),
                material.wf(),
                at.of(metrics),
                d.wf(),
                d@.quads == head.quads + rows_quads(self@, material@, metrics, k as int),
                d@.runs == head.runs + rows_runs(self@, material@, metrics, k as int),
            decreases shown - k,
        {
            let ghost before = d@;
            self.draw_row(k, &at, material, metrics, &mut d);
            assert(d@.quads =~= head.quads + rows_quads(self@, material@, metrics, k + 1));
            assert(d@.runs =~= head.runs + rows_runs(self@, material@, metrics, k + 1));
            k += 1;
        }
        assert(d@ =~= palette_drawing(self@, material@, metrics));
        d
    }

    fn draw_row(
        &self,
        k: usize,
        at: &Places,
        material: &Material,
        metrics: OverlayMetrics,
        d: &mut Drawing,
    )
        requires
            self.wf(),
            material.wf(),
            at.of(metrics),
            k < rows_shown(self@) <= VISIBLE_ROWS,
            old(d).wf(),
        ensures
            final(d).wf(),
            final(d)@.quads == old(d)@.quads + row_quads(self@, material@, metrics, k as int),
            final(d)@.runs == old(d)@.runs + row_runs(self@, material@, metrics, k as int),
    {
        let ranked: usize = self.ranked.len();
        assert(self.scroll + k < ranked);
        let absolute: usize = self.scroll + k;
        assert(self@.ranked[absolute as int].0 < self.actions@.len());
        let index: usize = self.ranked[absolute].0;
        let action = &self.actions[index];
        let ghost a = self@.result(absolute as int);
        assert(a == action@);
        let accent = material.role(Role::Accent);
        let dim = material.role(Role::Dim);
        assert(0 <= at.row * (k + 1) <= 104856 * 9) by (nonlinear_arith)
            requires
                0 <= at.row <= 104856,
                0 <= k <= 8,
        ;
        let y: i128 = at.top + 100 * (at.row * (k as i128 + 1)) + 50 * at.pad;
        assert(y == palette_row_y(metrics, k as int));
        if absolute == self.selected {
            d.quads.push(
                fill(
                    (at.left + 50 * at.pad, y - 15 * at.row),
                    (at.width - 100 * at.pad, 100 * at.row),
                    accent,
                    Fraction { num: 22, den: 100 },
                ),
            );
        }
        let ghost selection = d@.quads;
        let x: i128 = at.left + 100 * at.pad;
        d.push_run(
            TextRun::plain(action.label.as_str(), (x, y), material.role(Role::Foreground)),
        );
        let id_x: i128 = x + text_width(action.label.as_str(), metrics) + 200
            * metrics.cell_width as i128;
        assert(id_x == palette_id_x(metrics, a));
        d.push_run(TextRun::plain(action.id.as_str(), (id_x, y), dim));
        let positions = &self.ranked[absolute].1.positions;
        let ghost to_mark = |position: usize| mark_of(metrics, a, k as int, position, accent);
        let ghost marks = positions@.map_values(to_mark);
        let n: usize = positions.len();
        let mut i: usize = 0;
        assert(d@.quads =~= selection + marks.take(0));
        while i < n
            invariant
                i <= n == positions@.len(),
                marks == positions@.map_values(to_mark),
                to_mark == (|position: usize|
                    mark_of(metrics, a, k as int, position, accent)),
                id_x == palette_id_x(metrics, a),
                -0x1_0000_0000_0000_0000_0000_0000 <= id_x <= 0x1_0000_0000_0000_0000_0000_0000,
                y == palette_row_y(metrics, k as int),
                0 <= y <= 0x1_0000_0000_0000_0000,
                d.wf(),
                d@.runs == old(d)@.runs.push(
                    plain_run(
                        a.label,
                        (x, y),
                        material@.roles[role_index(Role::Foreground)],
                    ),
                ).push(plain_run(a.id, (id_x, y), dim)),
                d@.quads == selection + marks.take(i as int),
            decreases n - i,
        {
            let p: usize = positions[i];
            let q = fill(
                (
                    id_x + cells_wide(p, metrics.cell_width),
                    y + 92 * metrics.cell_height as i128,
                ),
                (100 * metrics.cell_width as i128, 150),
                accent,
                Fraction { num: 80, den: 100 },
            );
            assert(q == marks[i as int]);
            d.quads.push(q);
            assert(d@.quads =~= selection + marks.take(i + 1));
            i += 1;
        }
        assert(marks.take(n as int) =~= marks);
        assert(d@.quads =~= old(d)@.quads + row_quads(self@, material@, metrics, k as int));
        if chars_of(action.shortcut.as_str()).len() > 0 {
            d.push_run(
                TextRun::plain(
                    action.shortcut.as_str(),
                    (
                        at.left + at.width - 100 * at.pad - text_width(
                            action.shortcut.as_str(),
                            metrics,
                        ),
                        y,
                    ),
                    dim,
                ),
            );
        }
        assert(d@.runs =~= old(d)@.runs + row_runs(self@, material@, metrics, k as int));
    }

    /// Draws the palette. A closed one draws nothing.
    pub fn render<R: Fn(GlyphKey, Option<&str>) -> Option<Bitmap>>(
        &self,
        atlas: &mut Atlas,
        font: &R,
        material: &Material,
        metrics: OverlayMetrics,
        out: &mut InstanceBuffers,
    )
        requires
            self.wf(),
            material.wf(),
            old(atlas).wf(),
            forall|key: GlyphKey, text: Option<&str>| #[trigger] call_requires(*font, (key, text)),
        ensures
            final(atlas).wf(),
            !self@.open ==> *final(atlas) == *old(atlas) && *final(out) == *old(out),
            self@.open ==> rendered(
                palette_drawing(self@, material@, metrics),
                old(atlas)@,
                *old(out),
                *font,
                metrics.cell_width,
                final(atlas)@,
                *final(out),
            ),
    {
        if !self.open {
            return;
        }
        let d = self.drawing(material, metrics);
        render_drawing(&d, atlas, font, metrics, out);
    }
}

impl Default for Palette {
    fn default() -> (p: Palette)
        ensures
            p.wf(),
            !p@.open,
            p@.query.text.len() == 0,
            p@.actions == fixed_actions(),
    {
        let none: Vec<String> = Vec::new();
        let actions = default_actions(none.as_slice());
        assert(all_actions(spelled(none@)) =~= fixed_actions());
        Palette::new(actions)
    }
}

/// The palette does these things, under these names, and chooses each theme.
pub proof fn law_what_the_palette_can_do(themes: &[String], v: Vec<Action>, i: int)
    requires
        call_ensures(default_actions, (themes,), v),
        0 <= i < themes@.len(),
    ensures
        v@.len() == 14 + themes@.len(),
        v@[0].id@ == "session.next_tab"@ && v@[0].label@ == "Next Tab"@ && v@[0].shortcut@
            == "⌃⇥"@,
        v@[1].id@ == "session.previous_tab"@ && v@[1].label@ == "Previous Tab"@
            && v@[1].shortcut@ == "⌃⇧⇥"@,
        v@[2].id@ == "session.scroll_bottom"@ && v@[2].label@ == "Scroll to Bottom"@
            && v@[2].shortcut@ == "⌘↓"@,
        v@[3].id@ == "session.clear_selection"@ && v@[3].label@ == "Clear Selection"@
            && v@[3].shortcut@ == "⎋"@,
        v@[4].id@ == "blocks.next"@ && v@[4].label@ == "Next Command Block"@ && v@[4].shortcut@
            == "⌘↓"@,
        v@[5].id@ == "blocks.previous"@ && v@[5].label@ == "Previous Command Block"@
            && v@[5].shortcut@ == "⌘↑"@,
        v@[6].id@ == "blocks.fold"@ && v@[6].label@ == "Fold Command Block"@,
        v@[7].id@ == "settings.open"@ && v@[7].label@ == "Open Settings"@ && v@[7].shortcut@
            == "⌘,"@,
        v@[8].id@ == "settings.fx.cursor"@ && v@[8].label@ == "Caret Motion · Next Style"@,
        v@[9].id@ == "settings.fx.decay"@ && v@[9].label@ == "Toggle Caret Decay"@,
        v@[10].id@ == "settings.fx.blink"@ && v@[10].label@ == "Toggle Caret Blink"@,
        v@[11].id@ == "settings.fx.reduce"@ && v@[11].label@ == "Toggle Reduce Motion"@,
        v@[12].id@ == "settings.fx.blocks"@ && v@[12].label@ == "Toggle Block Gutter"@,
        v@[13].id@ == "settings.fx.depth"@ && v@[13].label@ == "Toggle Ambient Light"@,
        v@[14 + i].id@ == "theme."@ + themes@[i]@,
        v@[14 + i].label@ == "Theme · "@ + themes@[i]@,
        v@[14 + i].shortcut@.len() == 0,
{
    reveal_strlit("");
    let all = action_views(v@);
    assert(all.len() == v@.len());
    assert forall|k: int| 0 <= k < v@.len() implies #[trigger] all[k] == v@[k]@ by {}
    let of_themes = spelled(themes@).map_values(|id: Seq<char>| theme_action(id));
    assert(fixed_actions().len() == 14);
    assert(all[0] == v@[0]@ && all[1] == v@[1]@ && all[2] == v@[2]@ && all[3] == v@[3]@ && all[4]
        == v@[4]@ && all[5] == v@[5]@ && all[6] == v@[6]@);
    assert(all[7] == v@[7]@ && all[8] == v@[8]@ && all[9] == v@[9]@ && all[10] == v@[10]@ && all[11]
        == v@[11]@ && all[12] == v@[12]@ && all[13] == v@[13]@);
    assert(all[14 + i] == of_themes[i]);
    assert(spelled(themes@)[i] == themes@[i]@);
}

/// Going down selects the next row, and the first after the last; going up the
/// row before, and the last before the first. At most eight rows are shown, and
/// the rows move no further than they have to.
pub proof fn law_the_selection_goes_round(p: PaletteView, to: int)
    requires
        p.wf(),
        p.ranked.len() > 0,
        0 <= to < p.ranked.len(),
    ensures
        p.selected < p.ranked.len() - 1 ==> p.row_after() == p.selected + 1,
        p.selected == p.ranked.len() - 1 ==> p.row_after() == 0,
        p.selected > 0 ==> p.row_before() == p.selected - 1,
        p.selected == 0 ==> p.row_before() == p.ranked.len() - 1,
        p.at(to).selected == to,
        p.scroll <= to < p.scroll + 8 ==> p.at(to).scroll == p.scroll,
        to < p.scroll ==> p.at(to).scroll == to,
        to >= p.scroll + 8 ==> p.at(to).scroll == to - 7,
        p.at(to).ranked == p.ranked && p.at(to).actions == p.actions && p.at(to).query == p.query,
        p.chosen() == Some(p.actions[p.ranked[p.selected].0 as int]),
        p.ranked.len() - p.scroll >= 8 ==> rows_shown(p) == 8,
        p.ranked.len() - p.scroll < 8 ==> rows_shown(p) == p.ranked.len() - p.scroll,
{
}

/// The panel is six tenths of the window wide, but between 320 and 720 pixels, in
/// the middle of it, and twelve hundredths of its height from the top, to the
/// nearest pixel.
pub proof fn law_the_palette_stands_in_the_middle(m: OverlayMetrics)
    requires
        m.viewport.0 >= 320,
    ensures
        600 <= m.viewport.0 <= 1200 && m.viewport.0 % 5 == 0 ==> 10 * palette_width(m) == 600
            * m.viewport.0,
        m.viewport.0 < 533 ==> palette_width(m) == 32000,
        m.viewport.0 > 1200 ==> palette_width(m) == 72000,
        -100 <= 2 * palette_left(m) + palette_width(m) - 100 * m.viewport.0 <= 100,
        -50 <= palette_top(m) - 12 * m.viewport.1 <= 50,
{
    let free = 100 * m.viewport.0 - palette_width(m);
    assert(free >= 0);
    assert(-50 <= 100 * ((2 * free + 200) / 400) - free / 2 <= 50 + 1);
    assert(-200 <= 200 * ((2 * free + 200) / 400) * 2 - 2 * free <= 200);
}

/// A row shows its result's label, the id behind it, and the shortcut, all at
/// the same height, a row below the one before.
pub proof fn law_rows_show_their_results(
    p: PaletteView,
    material: MaterialView,
    m: OverlayMetrics,
    k: int,
)
    requires
        p.wf(),
        0 <= k < rows_shown(p),
    ensures
        ({
            let a = p.actions[p.ranked[p.scroll + k].0 as int];
            let texts = row_runs(p, material, m, k);
            &&& texts.len() == if a.shortcut.len() == 0 {
                2int
            } else {
                3
            }
            &&& texts[0].text == a.label
            &&& texts[1].text == a.id
            &&& a.shortcut.len() > 0 ==> texts[2].text == a.shortcut
            &&& texts[0].color == material.roles[role_index(Role::Foreground)]
            &&& texts[1].color == material.roles[role_index(Role::Dim)]
            &&& texts[1].origin.1 == texts[0].origin.1
            &&& a.shortcut.len() > 0 ==> texts[2].origin.1 == texts[0].origin.1
            &&& texts[0].origin.0 == palette_left(m) + 100 * m.pad()
        }),
        palette_row_y(m, k + 1) == palette_row_y(m, k) + 100 * m.row(),
        palette_row_y(m, 0) == palette_top(m) + 100 * m.row() + 50 * m.pad(),
{
    assert(m.row() * (k + 2) == m.row() * (k + 1) + m.row()) by (nonlinear_arith);
    assert(m.row() * 1 == m.row());
    assert(0 <= m.pad() <= 98304);
    assert(-0x100_0000_0000 <= palette_left(m) <= 0x100_0000_0000);
}

/// Only the selected row has a rectangle behind it, and under each character of
/// the id that was matched there is a line.
pub proof fn law_matched_characters_are_underlined(
    p: PaletteView,
    material: MaterialView,
    m: OverlayMetrics,
    k: int,
    i: int,
)
    requires
        p.wf(),
        0 <= k < rows_shown(p),
        0 <= i < p.ranked[p.scroll + k].1.positions@.len(),
        p.result(p.scroll + k).label.len() <= u32::MAX,
        p.ranked[p.scroll + k].1.positions@[i] <= u32::MAX,
    ensures
        ({
            let positions = p.ranked[p.scroll + k].1.positions@;
            let quads = row_quads(p, material, m, k);
            let texts = row_runs(p, material, m, k);
            let accent = material.roles[role_index(Role::Accent)];
            let first = quads.len() - positions.len();
            let line = quads[first + i];
            &&& first == if p.scroll + k == p.selected {
                1int
            } else {
                0
            }
            &&& line.origin.0 == texts[1].origin.0 + 100 * (positions[i] * m.cell_width)
            &&& line.size.0 == 100 * m.cell_width
            &&& line.fill.r == accent.r && line.fill.g == accent.g && line.fill.b == accent.b
            &&& first == 1 ==> quads[0].size.1 == 100 * m.row() && quads[0].fill.r == accent.r
                && quads[0].fill.a == 56
        }),
{
    let positions = p.ranked[p.scroll + k].1.positions@;
    let accent = material.roles[role_index(Role::Accent)];
    let a = p.result(p.scroll + k);
    let marks = positions.map_values(|position: usize| mark_of(m, a, k, position, accent));
    let quads = row_quads(p, material, m, k);
    let first = quads.len() - positions.len();
    assert(quads[first + i] == marks[i]);
    let at = positions[i] as int;
    let cw = m.cell_width as int;
    let len = a.label.len() as int;
    assert(at * (100 * cw) == 100 * (at * cw)) by (nonlinear_arith);
    assert(0 <= at * (100 * cw) <= 0x1_0000_0000 * 6553500 && 0 <= len * (100 * cw) <= 0x1_0000_0000
        * 6553500) by (nonlinear_arith)
        requires
            0 <= at <= 0x1_0000_0000,
            0 <= len <= 0x1_0000_0000,
            0 <= cw <= 65535,
    ;
    assert(0 <= m.pad() <= 98304);
    assert(-0x100_0000_0000 <= palette_left(m) <= 0x100_0000_0000);
    let f = Fraction { num: 22, den: 100 };
    assert(f.part() == 22);
    assert(f.level() == (2 * 255 * 22 + 100) / 200);
}

/// A new query is ranked anew over the same actions, and the best is selected.
pub proof fn law_a_new_query_selects_the_best(
    before: PaletteView,
    open: bool,
    query: FieldView,
    after: PaletteView,
)
    requires
        requeried(before, open, query, after),
    ensures
        after.open == open,
        after.query == query,
        after.actions == before.actions,
        after.selected == 0,
        after.scroll == 0,
        after.ranked.len() > 0 ==> after.chosen() == Some(
            before.actions[after.ranked[0].0 as int],
        ),
        ranking(
            query.text,
            before.actions.map_values(|a: ActionView| a.id),
            before.actions.len() as int,
            after.ranked,
        ),
{
}

/// The palette shows its panel, as high as its rows, the query behind its sign
/// with the caret in it, and then the rows from the first shown on.
pub proof fn law_the_palette_shows_the_query_and_the_rows(
    p: PaletteView,
    material: MaterialView,
    m: OverlayMetrics,
    k: int,
)
    requires
        p.wf(),
        p.query.text.len() <= usize::MAX,
        0 <= k < rows_shown(p),
    ensures
        ({
            let d = palette_drawing(p, material, m);
            let cw = m.cell_width;
            &&& d.quads[0].origin.0 == palette_left(m)
            &&& d.quads[0].origin.1 == palette_top(m)
            &&& d.quads[0].size.0 == palette_width(m)
            &&& p.ranked.len() >= 8 ==> palette_height(p, m) == 100 * (m.row() * 9) + 100 * m.pad()
            &&& p.ranked.len() < 8 ==> palette_height(p, m) == 100 * (m.row() * (p.ranked.len() as int
                + 1)) + 100 * m.pad()
            &&& d.runs[1].text == p.query.text
            &&& d.runs[1].color == material.roles[role_index(Role::Foreground)]
            &&& d.runs[0].color == material.roles[role_index(Role::Accent)]
            &&& d.runs[1].origin.0 == d.runs[0].origin.0 + 200 * cw
            &&& d.runs[1].origin.1 == d.runs[0].origin.1
            &&& d.quads[1].origin.0 == d.runs[1].origin.0 + 100 * (p.query.caret * cw)
            &&& d.quads[1].origin.1 == d.runs[1].origin.1
            &&& d.quads[1].size.1 == 100 * m.cell_height
        }),
        rows_runs(p, material, m, 0).len() == 0,
        rows_quads(p, material, m, 0).len() == 0,
        rows_runs(p, material, m, k + 1) == rows_runs(p, material, m, k) + row_runs(
            p,
            material,
            m,
            k,
        ),
        rows_quads(p, material, m, k + 1) == rows_quads(p, material, m, k) + row_quads(
            p,
            material,
            m,
            k,
        ),
        palette_drawing(p, material, m).runs.skip(2) == rows_runs(p, material, m, rows_shown(p)),
        palette_drawing(p, material, m).quads.skip(2) == rows_quads(p, material, m, rows_shown(p)),
{
    reveal_strlit("❯ ");
    let d = palette_drawing(p, material, m);
    let cw = m.cell_width as int;
    let c = p.query.caret;
    assert("❯ "@.len() == 2);
    assert(2 * (100 * cw) == 200 * cw);
    assert(c * (100 * cw) == 100 * (c * cw)) by (nonlinear_arith);
    assert(0 <= c * (100 * cw) <= 0x1_0000_0000_0000_0000 * 6553500) by (nonlinear_arith)
        requires
            0 <= c <= 0x1_0000_0000_0000_0000,
            0 <= cw <= 65535,
    ;
    assert(0 <= m.pad() <= 98304);
    assert(-0x100_0000_0000 <= palette_left(m) <= 0x100_0000_0000);
    assert(0 <= palette_top(m) <= 0x100_0000_0000);
    assert(d.runs.skip(2) =~= rows_runs(p, material, m, rows_shown(p)));
    assert(d.quads.skip(2) =~= rows_quads(p, material, m, rows_shown(p)));
}

} // verus!
