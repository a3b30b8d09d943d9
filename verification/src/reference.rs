//! The settings file that is written for the user: a catalogue, then the
//! configuration.
//!
//! The catalogue names every option and what it accepts. It is written anew each
//! time, so it cannot drift from the code, and nothing in it is live. The
//! configuration is complete: every value, and every action with its chord.

use vstd::prelude::*;
use vstd::utf8::*;

use crate::keymap::{binds, KeyMap};
use crate::material::{builtin_themes, builtin_views, theme_views, DEFAULT_THEME};
use crate::motion::{all_styles, style_id, MotionStyle};
use crate::raster::{is_whitespace, white_space};
use crate::settings::{complete, FileView, Settings, SettingsFile, DEFAULT_FONT};
use crate::text::{chars_of, find_char, first_index, lemma_first_index, push_text, string_of};

verus! {

/// An action that a chord can be bound to.
#[derive(Debug, Clone, PartialEq, Eq)]
pub struct KeyDoc {
    /// `namespace.verb`.
    pub action: String,
    /// What a person reads.
    pub label: String,
    /// The chord it is bound to, empty where it is bound to none.
    pub chord: String,
    /// Whether it does anything yet.
    pub implemented: bool,
}

/// [`KeyDoc`] with its texts as character sequences.
pub struct KeyDocView {
    pub action: Seq<char>,
    pub label: Seq<char>,
    pub chord: Seq<char>,
    pub implemented: bool,
}

impl View for KeyDoc {
    type V = KeyDocView;

    open spec fn view(&self) -> KeyDocView {
        KeyDocView {
            action: self.action@,
            label: self.label@,
            chord: self.chord@,
            implemented: self.implemented,
        }
    }
}

/// What actions are.
pub open spec fn key_views(keys: Seq<KeyDoc>) -> Seq<KeyDocView> {
    keys.map_values(|k: KeyDoc| k@)
}

pub const FLAGS_START: &'static str = "# Config Flags Start";

pub const FLAGS_END: &'static str = "# Config Flags End";

pub const CONFIG_START: &'static str = "# Config Start";

pub const CONFIG_END: &'static str = "# Config End";

/// A text up to its first line feed.
pub open spec fn one_line(text: Seq<char>) -> Seq<char> {
    text.take(first_index(text, '\n'))
}

/// A text as a comment of one line, whatever it holds.
pub open spec fn comment_line(text: Seq<char>) -> Seq<char> {
    seq!['#'] + one_line(text) + seq!['\n']
}

/// The first `n` texts, each as a comment of one line.
pub open spec fn commented(lines: Seq<Seq<char>>, n: int) -> Seq<char>
    decreases n,
{
    if n <= 0 {
        Seq::empty()
    } else {
        commented(lines, n - 1) + comment_line(lines[n - 1])
    }
}

/// A text with blanks behind it up to a width.
pub open spec fn padded(text: Seq<char>, width: int) -> Seq<char> {
    text + Seq::new(
        (if text.len() < width {
            width - text.len()
        } else {
            0
        }) as nat,
        |i: int| ' ',
    )
}

/// The line that opens a section.
pub open spec fn section_line(name: Seq<char>, blurb: Seq<char>) -> Seq<char> {
    " ["@ + name + "] — "@ + blurb
}

/// The line of an option.
pub open spec fn flag_line(key: Seq<char>, values: Seq<char>) -> Seq<char> {
    "   "@ + padded(key, 28) + " "@ + values
}

/// The first `n` texts, with bars between them.
pub open spec fn barred(texts: Seq<Seq<char>>, n: int) -> Seq<char>
    decreases n,
{
    if n <= 0 {
        Seq::empty()
    } else if n == 1 {
        texts[0]
    } else {
        barred(texts, n - 1) + " | "@ + texts[n - 1]
    }
}

/// The names of the themes.
pub open spec fn theme_list() -> Seq<char> {
    barred(
        builtin_views().map_values(|t: crate::material::ThemeView| t.id),
        builtin_views().len() as int,
    )
}

/// The names of the caret's styles.
pub open spec fn style_list() -> Seq<char> {
    barred(all_styles().map_values(|s: MotionStyle| style_id(s)), all_styles().len() as int)
}

/// The introduction.
pub open spec fn header_lines() -> Seq<Seq<char>> {
    seq![
        " Mica — settings"@,
        ""@,
        " Everything above `Config Start` is a comment: a catalogue of every"@,
        " option and the values it accepts. Read it to find out what a setting"@,
        " will take; change the setting itself below."@,
        ""@,
        " The configuration below is complete: every setting, with the value"@,
        " it currently has. Edit any of them in place. A key you delete goes"@,
        " back to following Mica's default, and a file you delete is written"@,
        " again from scratch on the next launch."@,
        ""@,
        " Mica rewrites this file when you change a setting from inside the"@,
        " app, and regenerates the catalogue each time — comments you add"@,
        " inside the configuration are not kept."@,
        ""@,
        " A malformed file is reported and ignored rather than silently"@,
        " discarded, so a stray bracket cannot lose your theme."@,
        ""@,
        " Edits apply when Mica next becomes the active application — save"@,
        " here, switch back, done. Theme, caret motion, ambient light and key"@,
        " bindings take effect immediately; font, grid size, scrollback and"@,
        " [shell] wait for the next launch."@,
    ]
}

/// The options, and what each accepts.
pub open spec fn option_lines(themes: Seq<char>, styles: Seq<char>) -> Seq<Seq<char>> {
    seq![
        ""@,
        section_line("appearance"@, "theme, typeface, size"@),
        flag_line("theme"@, themes + "   (default: "@ + DEFAULT_THEME@ + ")"@),
        flag_line("font_family"@, "any installed monospace family   (default: "@ + DEFAULT_FONT@ + ")"@),
        flag_line("font_size"@, "points, 6.0 -> 72.0   (default: 13.0)"@),
        ""@,
        section_line("window"@, "the grid and the bell"@),
        flag_line("bell"@, "audible | visual | off   (default: off)"@),
        flag_line("columns"@, "1 -> 500   (default: 118)"@),
        flag_line("rows"@, "1 -> 300   (default: 34)"@),
        flag_line("scrollback"@, "lines of history   (default: 10000)"@),
        ""@,
        section_line("shell"@, "what runs, where it starts, and what a new pane inherits"@),
        flag_line("program"@, "absolute path   (default: $SHELL, else /bin/sh)"@),
        flag_line("starting-dir"@, "absolute path or ~/…   (default: your home directory)"@),
        flag_line("new-pane-from-focused-pane"@, "inherit | starting-dir   (default: inherit)"@),
        flag_line("focus-new-panes"@, "true | false   (default: true)"@),
        ""@,
        section_line("ambient"@, "the light behind the grid"@),
        flag_line("enabled"@, "true | false   (default: true)"@),
        flag_line("intensity"@, "0.0 -> 2.0   (default: 1.0 — what the toggle used to mean)"@),
        ""@,
        section_line("renderer"@, "frame pacing and native substitutions"@),
        flag_line("frame_cap"@, "0 follows the display; any other value implies a timer"@),
        flag_line("substitute_progress"@, "true | false   (default: false)"@),
        flag_line("substitute_spinner"@, "true | false   (default: false)"@),
        ""@,
        section_line("motion"@, "caret physics"@),
        flag_line("cursor"@, styles + "   (default: ease)"@),
        flag_line("speed"@, "0.25 -> 4.0   (default: 1.00)"@),
        flag_line("intensity"@, "0.0 -> 1.0   (default: 0.70)"@),
        flag_line("decay"@, "true | false — the trail behind the caret"@),
        flag_line("blink"@, "true | false"@),
        flag_line("reduce"@, "true | false — also forced on by the system preference"@),
        ""@,
        section_line("keys"@, "action = \"chord\""@),
        "   Modifiers: cmd, ctrl, alt (also opt/option), shift — any order,"@,
        "   joined by `+`. Mica writes them back as cmd/ctrl/alt/shift."@,
        "   Named keys: enter, tab, space, escape, backspace, delete, home, end,"@,
        "   pageup, pagedown, up, down, left, right, f1 … f12."@,
        "   An empty value unbinds the action deliberately."@,
        ""@,
    ]
}

/// How wide the actions are written: as wide as the longest, in bytes.
pub open spec fn action_width(keys: Seq<KeyDocView>, n: int) -> int
    decreases n,
{
    if n <= 0 {
        1
    } else {
        let rest = action_width(keys, n - 1);
        let own = encode_utf8(keys[n - 1].action).len() as int;
        if own > rest {
            own
        } else {
            rest
        }
    }
}

/// The line of an action.
pub open spec fn key_line(k: KeyDocView, width: int) -> Seq<char> {
    "   "@ + padded(k.action, width) + " = "@ + padded("\""@ + k.chord + "\""@, 18) + " # "@
        + k.label + (if k.implemented {
        ""@
    } else {
        "   (recognised, not implemented yet)"@
    })
}

/// The lines of the actions.
pub open spec fn key_lines(keys: Seq<KeyDocView>) -> Seq<Seq<char>> {
    keys.map_values(|k: KeyDocView| key_line(k, action_width(keys, keys.len() as int)))
}

/// The catalogue.
pub open spec fn catalogue_lines(keys: Seq<KeyDocView>) -> Seq<Seq<char>> {
    option_lines(theme_list(), style_list()) + key_lines(keys)
}

/// A text without the white space at its end.
pub open spec fn trimmed(text: Seq<char>) -> Seq<char>
    decreases text.len(),
{
    if text.len() > 0 && white_space(text.last()) {
        trimmed(text.drop_last())
    } else {
        text
    }
}

/// Everything before the configuration.
pub open spec fn preamble(keys: Seq<KeyDocView>) -> Seq<char> {
    commented(header_lines(), header_lines().len() as int) + seq!['\n'] + FLAGS_START@ + seq![
        '\n',
    ] + commented(catalogue_lines(keys), catalogue_lines(keys).len() as int) + FLAGS_END@ + seq![
        '\n',
        '\n',
    ] + CONFIG_START@ + seq!['\n']
}

/// The whole file, with the configuration given as it is written.
pub open spec fn document_text(keys: Seq<KeyDocView>, config: Seq<char>) -> Seq<char> {
    preamble(keys) + trimmed(config) + seq!['\n'] + CONFIG_END@ + seq!['\n']
}

/// Whether a line starts at `i`.
pub open spec fn line_starts(s: Seq<char>, i: int) -> bool {
    0 <= i < s.len() && (i == 0 || s[i - 1] == '\n')
}

/// Whether every line is a comment or blank, and the last one is finished.
pub open spec fn all_comment(s: Seq<char>) -> bool {
    &&& s.len() > 0 ==> s.last() == '\n'
    &&& forall|i: int| #[trigger] line_starts(s, i) ==> s[i] == '#' || s[i] == '\n'
}

proof fn lemma_comments_join(a: Seq<char>, b: Seq<char>)
    requires
        all_comment(a),
        all_comment(b),
    ensures
        all_comment(a + b),
{
    let s = a + b;
    assert forall|i: int| #[trigger] line_starts(s, i) implies s[i] == '#' || s[i] == '\n' by {
        if i < a.len() {
            assert(line_starts(a, i));
        } else {
            assert(line_starts(b, i - a.len()));
        }
    }
}

proof fn lemma_comment_line(text: Seq<char>)
    ensures
        all_comment(comment_line(text)),
{
    lemma_first_index(text, '\n');
    let s = comment_line(text);
    let body = one_line(text);
    assert forall|i: int| #[trigger] line_starts(s, i) implies s[i] == '#' || s[i] == '\n' by {
        if i > 0 {
            if i - 1 >= 1 && i - 1 < 1 + body.len() {
                assert(s[i - 1] == body[i - 2]);
            }
        }
    }
}

proof fn lemma_commented(lines: Seq<Seq<char>>, n: int)
    requires
        0 <= n <= lines.len(),
    ensures
        all_comment(commented(lines, n)),
    decreases n,
{
    if n > 0 {
        lemma_commented(lines, n - 1);
        lemma_comment_line(lines[n - 1]);
        lemma_comments_join(commented(lines, n - 1), comment_line(lines[n - 1]));
    }
}

proof fn lemma_blank_line()
    ensures
        all_comment(seq!['\n']),
{
}

/// A text of one line, told character by character.
spec fn no_feed(s: Seq<char>, n: int) -> bool
    decreases n,
{
    n <= 0 || (s[n - 1] != '\n' && no_feed(s, n - 1))
}

proof fn lemma_no_feed(s: Seq<char>, n: int)
    requires
        no_feed(s, n),
    ensures
        forall|i: int| 0 <= i < n ==> #[trigger] s[i] != '\n',
    decreases n,
{
    if n > 0 {
        lemma_no_feed(s, n - 1);
    }
}

proof fn lemma_marker(s: Seq<char>)
    requires
        s.len() > 0,
        s[0] == '#',
        no_feed(s, s.len() as int),
    ensures
        all_comment(s + seq!['\n']),
{
    lemma_no_feed(s, s.len() as int);
    let t = s + seq!['\n'];
    assert forall|i: int| #[trigger] line_starts(t, i) implies t[i] == '#' || t[i] == '\n' by {
        if i > 0 {
            assert(t[i - 1] == s[i - 1]);
        }
    }
}

proof fn lemma_markers()
    ensures
        all_comment(FLAGS_START@ + seq!['\n']),
        all_comment(FLAGS_END@ + seq!['\n']),
        all_comment(CONFIG_START@ + seq!['\n']),
{
    reveal_strlit("# Config Flags Start");
    reveal_strlit("# Config Flags End");
    reveal_strlit("# Config Start");
    reveal_with_fuel(no_feed, 21);
    lemma_marker(FLAGS_START@);
    lemma_marker(FLAGS_END@);
    lemma_marker(CONFIG_START@);
}

/// Nothing before the configuration is live, whatever the actions' texts hold:
/// every line is a comment or blank.
pub proof fn law_the_catalogue_is_all_comment(keys: Seq<KeyDocView>)
    ensures
        all_comment(preamble(keys)),
{
    lemma_markers();
    lemma_blank_line();
    let n = seq!['\n'];
    let header = commented(header_lines(), header_lines().len() as int);
    let body = commented(catalogue_lines(keys), catalogue_lines(keys).len() as int);
    lemma_commented(header_lines(), header_lines().len() as int);
    lemma_commented(catalogue_lines(keys), catalogue_lines(keys).len() as int);
    let a = header + n;
    lemma_comments_join(header, n);
    let b = a + (FLAGS_START@ + n);
    lemma_comments_join(a, FLAGS_START@ + n);
    let c = b + body;
    lemma_comments_join(b, body);
    let d = c + (FLAGS_END@ + n);
    lemma_comments_join(c, FLAGS_END@ + n);
    let e = d + n;
    lemma_comments_join(d, n);
    let f = e + (CONFIG_START@ + n);
    lemma_comments_join(e, CONFIG_START@ + n);
    assert(preamble(keys) =~= f);
}

/// What vectors of characters spell.
spec fn line_views(lines: Seq<Vec<char>>) -> Seq<Seq<char>> {
    lines.map_values(|l: Vec<char>| l@)
}

/// Appends texts, each as a comment of one line.
fn push_commented(lines: &Vec<Vec<char>>, out: &mut Vec<char>)
    ensures
        final(out)@ == old(out)@ + commented(line_views(lines@), lines@.len() as int),
{
    let ghost views = line_views(lines@);
    let n: usize = lines.len();
    let mut i: usize = 0;
    assert(out@ =~= old(out)@ + commented(views, 0));
    while i < n
        invariant
            i <= n == lines@.len(),
            views == line_views(lines@),
            out@ == old(out)@ + commented(views, i as int),
        decreases n - i,
    {
        let ghost had = out@;
        let line = &lines[i];
        assert(views[i as int] == line@);
        let m: usize = line.len();
        let end: usize = find_char(line, 0, m, '\n');
        assert(line@.subrange(0, m as int) =~= line@);
        out.push('#');
        let mut k: usize = 0;
        assert(out@ =~= had + seq!['#'] + line@.take(0));
        while k < end
            invariant
                k <= end <= line@.len(),
                out@ == had + seq!['#'] + line@.take(k as int),
            decreases end - k,
        {
            out.push(line[k]);
            k += 1;
            assert(out@ =~= had + seq!['#'] + line@.take(k as int));
        }
        out.push('\n');
        assert(out@ =~= had + comment_line(line@));
        assert(out@ =~= old(out)@ + commented(views, i + 1));
        i += 1;
    }
}

/// Appends a text, with blanks behind it up to a width.
fn push_padded(text: &Vec<char>, width: usize, out: &mut Vec<char>)
    ensures
        final(out)@ == old(out)@ + padded(text@, width as int),
{
    let n: usize = text.len();
    let mut copy = Vec::new();
    let mut i: usize = 0;
    while i < n
        invariant
            i <= n == text@.len(),
            copy@ == text@.take(i as int),
        decreases n - i,
    {
        copy.push(text[i]);
        i += 1;
        assert(copy@ =~= text@.take(i as int));
    }
    assert(copy@ =~= text@);
    while i < width
        invariant
            n == text@.len(),
            n <= i,
            i <= width || i == n,
            copy@ == text@ + Seq::new((i - n) as nat, |k: int| ' '),
        decreases width - i,
    {
        copy.push(' ');
        i += 1;
        assert(copy@ =~= text@ + Seq::new((i - n) as nat, |k: int| ' '));
    }
    assert(copy@ =~= padded(text@, width as int));
    out.append(&mut copy);
}

fn section(name: &str, blurb: &str) -> (v: Vec<char>)
    ensures
        v@ == section_line(name@, blurb@),
{
    let mut v: Vec<char> = Vec::new();
    push_text(" [", &mut v);
    push_text(name, &mut v);
    push_text("] — ", &mut v);
    push_text(blurb, &mut v);
    assert(v@ =~= section_line(name@, blurb@));
    v
}

fn flag(key: &str, values: &Vec<char>) -> (v: Vec<char>)
    ensures
        v@ == flag_line(key@, values@),
{
    let mut v: Vec<char> = Vec::new();
    push_text("   ", &mut v);
    push_padded(&chars_of(key), 28, &mut v);
    push_text(" ", &mut v);
    push_padded(values, 0, &mut v);
    assert(padded(values@, 0) =~= values@);
    assert(v@ =~= flag_line(key@, values@));
    v
}

/// A list of names, with bars between them.
fn bars(texts: &Vec<&str>) -> (v: Vec<char>)
    ensures
        v@ == barred(crate::search::texts(texts@), texts@.len() as int),
{
    let ghost views = crate::search::texts(texts@);
    let mut v: Vec<char> = Vec::new();
    let n: usize = texts.len();
    let mut i: usize = 0;
    while i < n
        invariant
            i <= n == texts@.len(),
            views == crate::search::texts(texts@),
            v@ == barred(views, i as int),
        decreases n - i,
    {
        if i > 0 {
            push_text(" | ", &mut v);
        }
        push_text(texts[i], &mut v);
        assert(v@ =~= barred(views, i + 1));
        i += 1;
    }
    v
}

fn themes() -> (v: Vec<char>)
    ensures
        v@ == theme_list(),
{
    let all = builtin_themes();
    let mut ids: Vec<&str> = Vec::new();
    let n: usize = all.len();
    let mut i: usize = 0;
    while i < n
        invariant
            i <= n == all@.len(),
            ids@.len() == i,
            forall|k: int| 0 <= k < i ==> (#[trigger] ids@[k])@ == all@[k].id@,
        decreases n - i,
    {
        ids.push(all[i].id.as_str());
        i += 1;
    }
    assert(theme_views(all@).len() == all@.len());
    assert forall|k: int| 0 <= k < all@.len() implies all@[k].id@ == #[trigger] builtin_views()[k].id by {
        assert(theme_views(all@)[k] == all@[k]@);
    }
    assert(crate::search::texts(ids@) =~= builtin_views().map_values(
        |t: crate::material::ThemeView| t.id,
    ));
    bars(&ids)
}

fn styles() -> (v: Vec<char>)
    ensures
        v@ == style_list(),
{
    let all = MotionStyle::all();
    let mut ids: Vec<&str> = Vec::new();
    let n: usize = all.len();
    let mut i: usize = 0;
    while i < n
        invariant
            i <= n == all@.len(),
            all@ == all_styles(),
            ids@.len() == i,
            forall|k: int| 0 <= k < i ==> (#[trigger] ids@[k])@ == style_id(all_styles()[k]),
        decreases n - i,
    {
        ids.push(all[i].id());
        i += 1;
    }
    assert(crate::search::texts(ids@) =~= all_styles().map_values(|s: MotionStyle| style_id(s)));
    bars(&ids)
}

fn header() -> (lines: Vec<Vec<char>>)
    ensures
        line_views(lines@) == header_lines(),
{
    let mut lines: Vec<Vec<char>> = Vec::new();
    lines.push(chars_of(" Mica — settings"));
    lines.push(chars_of(""));
    lines.push(chars_of(" Everything above `Config Start` is a comment: a catalogue of every"));
    lines.push(chars_of(" option and the values it accepts. Read it to find out what a setting"));
    lines.push(chars_of(" will take; change the setting itself below."));
    lines.push(chars_of(""));
    lines.push(chars_of(" The configuration below is complete: every setting, with the value"));
    lines.push(chars_of(" it currently has. Edit any of them in place. A key you delete goes"));
    lines.push(chars_of(" back to following Mica's default, and a file you delete is written"));
    lines.push(chars_of(" again from scratch on the next launch."));
    lines.push(chars_of(""));
    lines.push(chars_of(" Mica rewrites this file when you change a setting from inside the"));
    lines.push(chars_of(" app, and regenerates the catalogue each time — comments you add"));
    lines.push(chars_of(" inside the configuration are not kept."));
    lines.push(chars_of(""));
    lines.push(chars_of(" A malformed file is reported and ignored rather than silently"));
    lines.push(chars_of(" discarded, so a stray bracket cannot lose your theme."));
    lines.push(chars_of(""));
    lines.push(chars_of(" Edits apply when Mica next becomes the active application — save"));
    lines.push(chars_of(" here, switch back, done. Theme, caret motion, ambient light and key"));
    lines.push(chars_of(" bindings take effect immediately; font, grid size, scrollback and"));
    lines.push(chars_of(" [shell] wait for the next launch."));
    assert(line_views(lines@) =~= header_lines());
    lines
}

fn options() -> (lines: Vec<Vec<char>>)
    ensures
        line_views(lines@) == option_lines(theme_list(), style_list()),
{
    let named = themes();
    let moves = styles();
    let mut theme_values: Vec<char> = Vec::new();
    push_padded(&named, 0, &mut theme_values);
    push_text("   (default: ", &mut theme_values);
    push_text(DEFAULT_THEME, &mut theme_values);
    push_text(")", &mut theme_values);
    assert(theme_values@ =~= theme_list() + "   (default: "@ + DEFAULT_THEME@ + ")"@);
    let mut font_values: Vec<char> = Vec::new();
    push_text("any installed monospace family   (default: ", &mut font_values);
    push_text(DEFAULT_FONT, &mut font_values);
    push_text(")", &mut font_values);
    assert(font_values@ =~= "any installed monospace family   (default: "@ + DEFAULT_FONT@ + ")"@);
    let mut style_values: Vec<char> = Vec::new();
    push_padded(&moves, 0, &mut style_values);
    push_text("   (default: ease)", &mut style_values);
    assert(style_values@ =~= style_list() + "   (default: ease)"@);
    let mut lines: Vec<Vec<char>> = Vec::new();
    lines.push(chars_of(""));
    lines.push(section("appearance", "theme, typeface, size"));
    lines.push(flag("theme", &theme_values));
    lines.push(flag("font_family", &font_values));
    lines.push(flag("font_size", &chars_of("points, 6.0 -> 72.0   (default: 13.0)")));
    lines.push(chars_of(""));
    lines.push(section("window", "the grid and the bell"));
    lines.push(flag("bell", &chars_of("audible | visual | off   (default: off)")));
    lines.push(flag("columns", &chars_of("1 -> 500   (default: 118)")));
    lines.push(flag("rows", &chars_of("1 -> 300   (default: 34)")));
    lines.push(flag("scrollback", &chars_of("lines of history   (default: 10000)")));
    lines.push(chars_of(""));
    lines.push(section("shell", "what runs, where it starts, and what a new pane inherits"));
    lines.push(flag("program", &chars_of("absolute path   (default: $SHELL, else /bin/sh)")));
    lines.push(flag("starting-dir", &chars_of("absolute path or ~/…   (default: your home directory)")));
    lines.push(flag("new-pane-from-focused-pane", &chars_of("inherit | starting-dir   (default: inherit)")));
    lines.push(flag("focus-new-panes", &chars_of("true | false   (default: true)")));
    lines.push(chars_of(""));
    lines.push(section("ambient", "the light behind the grid"));
    lines.push(flag("enabled", &chars_of("true | false   (default: true)")));
    lines.push(flag("intensity", &chars_of("0.0 -> 2.0   (default: 1.0 — what the toggle used to mean)")));
    lines.push(chars_of(""));
    lines.push(section("renderer", "frame pacing and native substitutions"));
    lines.push(flag("frame_cap", &chars_of("0 follows the display; any other value implies a timer")));
    lines.push(flag("substitute_progress", &chars_of("true | false   (default: false)")));
    lines.push(flag("substitute_spinner", &chars_of("true | false   (default: false)")));
    lines.push(chars_of(""));
    lines.push(section("motion", "caret physics"));
    lines.push(flag("cursor", &style_values));
    lines.push(flag("speed", &chars_of("0.25 -> 4.0   (default: 1.00)")));
    lines.push(flag("intensity", &chars_of("0.0 -> 1.0   (default: 0.70)")));
    lines.push(flag("decay", &chars_of("true | false — the trail behind the caret")));
    lines.push(flag("blink", &chars_of("true | false")));
    lines.push(flag("reduce", &chars_of("true | false — also forced on by the system preference")));
    lines.push(chars_of(""));
    lines.push(section("keys", "action = \"chord\""));
    lines.push(chars_of("   Modifiers: cmd, ctrl, alt (also opt/option), shift — any order,"));
    lines.push(chars_of("   joined by `+`. Mica writes them back as cmd/ctrl/alt/shift."));
    lines.push(chars_of("   Named keys: enter, tab, space, escape, backspace, delete, home, end,"));
    lines.push(chars_of("   pageup, pagedown, up, down, left, right, f1 … f12."));
    lines.push(chars_of("   An empty value unbinds the action deliberately."));
    lines.push(chars_of(""));
    assert(line_views(lines@) =~= option_lines(theme_list(), style_list()));
    lines
}

fn widest(keys: &[KeyDoc]) -> (w: usize)
    ensures
        w == action_width(key_views(keys@), keys@.len() as int),
{
    let ghost views = key_views(keys@);
    let mut w: usize = 1;
    let n: usize = keys.len();
    let mut i: usize = 0;
    while i < n
        invariant
            i <= n == keys@.len(),
            views == key_views(keys@),
            w == action_width(views, i as int),
        decreases n - i,
    {
        assert(views[i as int] == keys@[i as int]@);
        let own: usize = keys[i].action.as_str().as_bytes().len();
        if own > w {
            w = own;
        }
        i += 1;
    }
    w
}

fn key_doc_line(k: &KeyDoc, width: usize) -> (v: Vec<char>)
    ensures
        v@ == key_line(k@, width as int),
{
    let mut quoted: Vec<char> = Vec::new();
    push_text("\"", &mut quoted);
    push_text(k.chord.as_str(), &mut quoted);
    push_text("\"", &mut quoted);
    assert(quoted@ =~= "\""@ + k.chord@ + "\""@);
    let mut v: Vec<char> = Vec::new();
    push_text("   ", &mut v);
    push_padded(&chars_of(k.action.as_str()), width, &mut v);
    push_text(" = ", &mut v);
    push_padded(&quoted, 18, &mut v);
    push_text(" # ", &mut v);
    push_text(k.label.as_str(), &mut v);
    if k.implemented {
        push_text("", &mut v);
    } else {
        push_text("   (recognised, not implemented yet)", &mut v);
    }
    assert(v@ =~= key_line(k@, width as int));
    v
}

/// The catalogue's lines.
fn flags(keys: &[KeyDoc]) -> (lines: Vec<Vec<char>>)
    ensures
        line_views(lines@) == catalogue_lines(key_views(keys@)),
{
    let ghost views = key_views(keys@);
    let ghost of_keys = key_lines(views);
    let mut lines = options();
    let ghost head = line_views(lines@);
    let width: usize = widest(keys);
    let n: usize = keys.len();
    let mut i: usize = 0;
    assert(line_views(lines@) =~= head + of_keys.take(0));
    while i < n
        invariant
            i <= n == keys@.len(),
            views == key_views(keys@),
            of_keys == key_lines(views),
            width == action_width(views, views.len() as int),
            line_views(lines@) == head + of_keys.take(i as int),
        decreases n - i,
    {
        assert(views[i as int] == keys@[i as int]@);
        let ghost had = lines@;
        let line = key_doc_line(&keys[i], width);
        assert(line@ == of_keys[i as int]);
        lines.push(line);
        assert(line_views(lines@) =~= line_views(had).push(line@));
        assert(of_keys.take(i + 1) =~= of_keys.take(i as int).push(line@));
        i += 1;
    }
    assert(of_keys.take(n as int) =~= of_keys);
    lines
}

/// The whole file: the catalogue of options and actions, then the configuration
/// as it is written.
pub fn document(keys: &[KeyDoc], config: &str) -> (text: String)
    ensures
        text@ == document_text(key_views(keys@), config@),
{
    let ghost views = key_views(keys@);
    let mut out: Vec<char> = Vec::new();
    push_commented(&header(), &mut out);
    out.push('\n');
    push_text(FLAGS_START, &mut out);
    out.push('\n');
    push_commented(&flags(keys), &mut out);
    push_text(FLAGS_END, &mut out);
    out.push('\n');
    out.push('\n');
    push_text(CONFIG_START, &mut out);
    out.push('\n');
    assert(out@ =~= preamble(views));
    let chars = chars_of(config);
    let mut end: usize = chars.len();
    assert(chars@.take(end as int) =~= config@);
    while end > 0 && is_whitespace(chars[end - 1])
        invariant
            end <= chars@.len(),
            trimmed(config@) == trimmed(chars@.take(end as int)),
        decreases end,
    {
        let ghost now = chars@.take(end as int);
        assert(now.drop_last() =~= chars@.take(end - 1));
        end -= 1;
    }
    assert(trimmed(chars@.take(end as int)) == chars@.take(end as int));
    let body = string_of(&chars, 0, end);
    assert(body@ =~= trimmed(config@));
    push_text(body.as_str(), &mut out);
    out.push('\n');
    push_text(CONFIG_END, &mut out);
    out.push('\n');
    let n: usize = out.len();
    assert(out@.subrange(0, n as int) =~= document_text(views, config@));
    string_of(&out, 0, n)
}

/// The chord of an action among the first `n`: the last that is given.
pub open spec fn last_chord(keys: Seq<KeyDocView>, n: int, action: Seq<char>) -> Option<Seq<char>>
    decreases n,
{
    if n <= 0 {
        None
    } else if keys[n - 1].action == action {
        Some(keys[n - 1].chord)
    } else {
        last_chord(keys, n - 1, action)
    }
}

/// The configuration to write: every setting, and every action with its chord.
/// The bindings are those that are in use, not only those that were changed.
pub fn config(settings: &Settings, keys: &[KeyDoc]) -> (f: SettingsFile)
    requires
        settings.keys.wf(),
    ensures
        f.wf(),
        f@ == (FileView { keys: f@.keys, ..complete(settings@) }),
        f@.keys matches Some(bound) && forall|a: Seq<char>, c: Seq<char>|
            #![trigger binds(bound, a, c)]
            binds(bound, a, c) <==> last_chord(key_views(keys@), keys@.len() as int, a) == Some(c),
{
    let ghost views = key_views(keys@);
    let mut map = KeyMap::new();
    let n: usize = keys.len();
    let mut i: usize = 0;
    while i < n
        invariant
            i <= n == keys@.len(),
            views == key_views(keys@),
            map.wf(),
            forall|a: Seq<char>, c: Seq<char>|
                #![trigger binds(map@, a, c)]
                binds(map@, a, c) <==> last_chord(views, i as int, a) == Some(c),
        decreases n - i,
    {
        assert(views[i as int] == keys@[i as int]@);
        let ghost had = map@;
        map.insert(
            keys[i].action.as_str().to_owned(),
            keys[i].chord.as_str().to_owned(),
        );
        assert forall|a: Seq<char>, c: Seq<char>|
            #![trigger binds(map@, a, c)]
            binds(map@, a, c) <==> last_chord(views, i + 1, a) == Some(c) by {
            assert(binds(had, a, c) <==> last_chord(views, i as int, a) == Some(c));
        }
        i += 1;
    }
    let mut f = settings.to_file_complete();
    f.keys = Some(map);
    f
}

/// The configuration stands between its two marks as it was written, but for
/// blanks at its end, and nothing stands behind the second.
pub proof fn law_the_configuration_is_kept(keys: &[KeyDoc], config: &str, text: String)
    requires
        call_ensures(document, (keys, config), text),
    ensures
        text@ == preamble(key_views(keys@)) + trimmed(config@) + "\n# Config End\n"@,
        trimmed(config@).is_prefix_of(config@),
        forall|i: int|
            trimmed(config@).len() <= i < config@.len() ==> white_space(#[trigger] config@[i]),
        trimmed(config@).len() > 0 ==> !white_space(trimmed(config@).last()),
{
    lemma_trimmed(config@);
    reveal_strlit("# Config End");
    reveal_strlit("\n# Config End\n");
    assert("\n# Config End\n"@ =~= seq!['\n'] + "# Config End"@ + seq!['\n']);
    let head = preamble(key_views(keys@)) + trimmed(config@);
    assert(head + seq!['\n'] + "# Config End"@ + seq!['\n'] =~= head + (seq!['\n']
        + "# Config End"@ + seq!['\n']));
}

proof fn lemma_trimmed(text: Seq<char>)
    ensures
        trimmed(text).is_prefix_of(text),
        forall|i: int|
            trimmed(text).len() <= i < text.len() ==> white_space(#[trigger] text[i]),
        trimmed(text).len() > 0 ==> !white_space(trimmed(text).last()),
    decreases text.len(),
{
    if text.len() > 0 && white_space(text.last()) {
        let rest = text.drop_last();
        lemma_trimmed(rest);
        assert(trimmed(text) =~= text.take(trimmed(text).len() as int));
        assert forall|i: int| trimmed(text).len() <= i < text.len() implies white_space(
            #[trigger] text[i],
        ) by {
            if i < rest.len() {
                assert(rest[i] == text[i]);
            }
        }
    } else {
        assert(text =~= text.take(text.len() as int));
    }
}

/// A line is written behind a number sign, up to its first line feed; a padded
/// text has blanks behind it up to its width.
pub proof fn law_lines_become_comments(text: Seq<char>, more: Seq<char>, width: int)
    requires
        forall|i: int| 0 <= i < text.len() ==> #[trigger] text[i] != '\n',
    ensures
        comment_line(text) == seq!['#'] + text + seq!['\n'],
        comment_line(text.push('\n') + more) == seq!['#'] + text + seq!['\n'],
        text.len() >= width ==> padded(text, width) == text,
        text.len() < width ==> padded(text, width).len() == width && text.is_prefix_of(
            padded(text, width),
        ) && forall|i: int| text.len() <= i < width ==> #[trigger] padded(text, width)[i] == ' ',
{
    let both = text.push('\n') + more;
    lemma_first_index(text, '\n');
    lemma_first_index(both, '\n');
    let n = text.len() as int;
    assert(both[n] == '\n');
    let at = first_index(both, '\n');
    if at < n {
        assert(both[at] == text[at]);
    }
    assert(at == n);
    assert(both.take(n) =~= text);
    if first_index(text, '\n') < n {
        assert(text[first_index(text, '\n')] != '\n');
    }
    assert(text.take(n) =~= text);
    if text.len() < width {
        assert(text =~= padded(text, width).take(n));
    } else {
        assert(padded(text, width) =~= text);
    }
}

/// Names are listed with a bar between each two.
pub proof fn law_names_are_listed_with_bars(texts: Seq<Seq<char>>, n: int)
    requires
        1 <= n < texts.len(),
    ensures
        barred(texts, 1) == texts[0],
        barred(texts, n + 1) == barred(texts, n) + " | "@ + texts[n],
{
}

/// An action is written as it is bound in a file: its name, its chord between
/// quotes, and what a person reads as a comment, with a word where it does
/// nothing yet. All names are written as wide as the widest.
pub proof fn law_actions_are_written_as_they_are_bound(
    keys: Seq<KeyDocView>,
    k: int,
)
    requires
        0 <= k < keys.len(),
    ensures
        ({
            let width = action_width(keys, keys.len() as int);
            let line = key_line(keys[k], width);
            &&& encode_utf8(keys[k].action).len() <= width
            &&& ("   "@ + keys[k].action).is_prefix_of(line)
            &&& keys[k].implemented ==> (" # "@ + keys[k].label).is_suffix_of(line)
            &&& !keys[k].implemented ==> (" # "@ + keys[k].label
                + "   (recognised, not implemented yet)"@).is_suffix_of(line)
            &&& key_lines(keys)[k] == line
            &&& catalogue_lines(keys).last() == key_line(keys.last(), width)
        }),
{
    let n = keys.len() as int;
    lemma_widest(keys, n, k);
    let width = action_width(keys, n);
    let line = key_line(keys[k], width);
    let start = "   "@ + keys[k].action;
    reveal_strlit("");
    assert(start =~= line.take(start.len() as int));
    let tail = if keys[k].implemented {
        " # "@ + keys[k].label
    } else {
        " # "@ + keys[k].label + "   (recognised, not implemented yet)"@
    };
    assert(tail =~= line.subrange(line.len() - tail.len(), line.len() as int));
    assert(catalogue_lines(keys).last() == key_lines(keys).last());
}

proof fn lemma_widest(keys: Seq<KeyDocView>, n: int, k: int)
    requires
        0 <= k < n <= keys.len(),
    ensures
        encode_utf8(keys[k].action).len() <= action_width(keys, n),
    decreases n,
{
    if k < n - 1 {
        lemma_widest(keys, n - 1, k);
    }
}

/// Of an action that is given more than once the last chord counts.
pub proof fn law_the_last_chord_counts(
    keys: Seq<KeyDocView>,
    n: int,
    k: int,
)
    requires
        0 <= k < n <= keys.len(),
        forall|i: int| k < i < n ==> (#[trigger] keys[i]).action != keys[k].action,
    ensures
        last_chord(keys, n, keys[k].action) == Some(keys[k].chord),
    decreases n,
{
    if k < n - 1 {
        assert(keys[n - 1].action != keys[k].action);
        law_the_last_chord_counts(keys, n - 1, k);
    }
}

/// The catalogue names every option with what it takes, section by section.
pub proof fn law_every_option_is_in_the_catalogue(themes: Seq<char>, styles: Seq<char>)
    ensures
        ({
            let lines = option_lines(themes, styles);
            &&& lines.len() == 42
            &&& lines[0] == ""@
            &&& lines[1] == " ["@ + "appearance"@ + "] — "@ + "theme, typeface, size"@
            &&& lines[2] == "   "@ + padded("theme"@, 28) + " "@ + (themes + "   (default: "@ + "slate"@ + ")"@)
            &&& lines[3] == "   "@ + padded("font_family"@, 28) + " "@ + ("any installed monospace family   (default: "@ + "JetBrains Mono"@ + ")"@)
            &&& lines[4] == "   "@ + padded("font_size"@, 28) + " "@ + "points, 6.0 -> 72.0   (default: 13.0)"@
            &&& lines[5] == ""@
            &&& lines[6] == " ["@ + "window"@ + "] — "@ + "the grid and the bell"@
            &&& lines[7] == "   "@ + padded("bell"@, 28) + " "@ + "audible | visual | off   (default: off)"@
            &&& lines[8] == "   "@ + padded("columns"@, 28) + " "@ + "1 -> 500   (default: 118)"@
            &&& lines[9] == "   "@ + padded("rows"@, 28) + " "@ + "1 -> 300   (default: 34)"@
            &&& lines[10] == "   "@ + padded("scrollback"@, 28) + " "@ + "lines of history   (default: 10000)"@
            &&& lines[11] == ""@
            &&& lines[12] == " ["@ + "shell"@ + "] — "@ + "what runs, where it starts, and what a new pane inherits"@
            &&& lines[13] == "   "@ + padded("program"@, 28) + " "@ + "absolute path   (default: $SHELL, else /bin/sh)"@
            &&& lines[14] == "   "@ + padded("starting-dir"@, 28) + " "@ + "absolute path or ~/…   (default: your home directory)"@
            &&& lines[15] == "   "@ + padded("new-pane-from-focused-pane"@, 28) + " "@ + "inherit | starting-dir   (default: inherit)"@
            &&& lines[16] == "   "@ + padded("focus-new-panes"@, 28) + " "@ + "true | false   (default: true)"@
            &&& lines[17] == ""@
            &&& lines[18] == " ["@ + "ambient"@ + "] — "@ + "the light behind the grid"@
            &&& lines[19] == "   "@ + padded("enabled"@, 28) + " "@ + "true | false   (default: true)"@
            &&& lines[20] == "   "@ + padded("intensity"@, 28) + " "@ + "0.0 -> 2.0   (default: 1.0 — what the toggle used to mean)"@
            &&& lines[21] == ""@
            &&& lines[22] == " ["@ + "renderer"@ + "] — "@ + "frame pacing and native substitutions"@
            &&& lines[23] == "   "@ + padded("frame_cap"@, 28) + " "@ + "0 follows the display; any other value implies a timer"@
            &&& lines[24] == "   "@ + padded("substitute_progress"@, 28) + " "@ + "true | false   (default: false)"@
            &&& lines[25] == "   "@ + padded("substitute_spinner"@, 28) + " "@ + "true | false   (default: false)"@
            &&& lines[26] == ""@
            &&& lines[27] == " ["@ + "motion"@ + "] — "@ + "caret physics"@
            &&& lines[28] == "   "@ + padded("cursor"@, 28) + " "@ + (styles + "   (default: ease)"@)
            &&& lines[29] == "   "@ + padded("speed"@, 28) + " "@ + "0.25 -> 4.0   (default: 1.00)"@
            &&& lines[30] == "   "@ + padded("intensity"@, 28) + " "@ + "0.0 -> 1.0   (default: 0.70)"@
            &&& lines[31] == "   "@ + padded("decay"@, 28) + " "@ + "true | false — the trail behind the caret"@
            &&& lines[32] == "   "@ + padded("blink"@, 28) + " "@ + "true | false"@
            &&& lines[33] == "   "@ + padded("reduce"@, 28) + " "@ + "true | false — also forced on by the system preference"@
            &&& lines[34] == ""@
            &&& lines[35] == " ["@ + "keys"@ + "] — "@ + "action = \"chord\""@
            &&& lines[36] == "   Modifiers: cmd, ctrl, alt (also opt/option), shift — any order,"@
            &&& lines[37] == "   joined by `+`. Mica writes them back as cmd/ctrl/alt/shift."@
            &&& lines[38] == "   Named keys: enter, tab, space, escape, backspace, delete, home, end,"@
            &&& lines[39] == "   pageup, pagedown, up, down, left, right, f1 … f12."@
            &&& lines[40] == "   An empty value unbinds the action deliberately."@
            &&& lines[41] == ""@
        }),
{
}

/// The file opens with its introduction, then the catalogue between its marks,
/// and then the mark of the configuration.
pub proof fn law_the_file_opens_with_the_catalogue(keys: Seq<KeyDocView>)
    ensures
        preamble(keys) == commented(header_lines(), 22) + "\n# Config Flags Start\n"@ + commented(
            catalogue_lines(keys),
            catalogue_lines(keys).len() as int,
        ) + "# Config Flags End\n\n# Config Start\n"@,
        header_lines()[0] == " Mica — settings"@,
        header_lines()[21] == " [shell] wait for the next launch."@,
        catalogue_lines(keys).len() == 42 + keys.len(),
{
    reveal_strlit("# Config Flags Start");
    reveal_strlit("# Config Flags End");
    reveal_strlit("# Config Start");
    reveal_strlit("\n# Config Flags Start\n");
    reveal_strlit("# Config Flags End\n\n# Config Start\n");
    let n = seq!['\n'];
    let a = commented(header_lines(), 22);
    let c = commented(catalogue_lines(keys), catalogue_lines(keys).len() as int);
    assert("\n# Config Flags Start\n"@ =~= n + "# Config Flags Start"@ + n);
    assert("# Config Flags End\n\n# Config Start\n"@ =~= "# Config Flags End"@ + seq!['\n', '\n']
        + "# Config Start"@ + n);
    let first = n + "# Config Flags Start"@ + n;
    let second = "# Config Flags End"@ + seq!['\n', '\n'] + "# Config Start"@ + n;
    assert(a + n + "# Config Flags Start"@ + n =~= a + first);
    let b = a + first + c;
    assert(b + "# Config Flags End"@ + seq!['\n', '\n'] + "# Config Start"@ + n =~= b + second);
}

} // verus!
