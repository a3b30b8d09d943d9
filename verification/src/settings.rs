//! Settings, and the file that they are kept in.
//!
//! The file's shape has every value optional; the shape that everything else
//! reads has none. A file may hold only what differs from the defaults, so that
//! a setting nobody touched goes on following them, or be complete.

use vstd::prelude::*;
use vstd::slice::slice_to_vec;
use vstd::utf8::*;

use crate::keymap::KeyMap;
use crate::material::DEFAULT_THEME;
use crate::mirror::at_least_one;
use crate::motion::{
    default_motion, law_styles_are_found_by_name, make_sane, sane, sanitised_motion, style_id,
    style_named, MotionSettings, MotionStyle, Single, ONE, TWO, ZERO,
};
use crate::path::{bytes_view, join, joined};
use crate::text::{chars_of, same_text};

verus! {

/// What happens when the terminal rings.
#[derive(Debug, Clone, Copy, PartialEq, Eq, Structural)]
pub enum Bell {
    Audible,
    Visual,
    Off,
}

/// Where a new pane starts.
#[derive(Debug, Clone, Copy, PartialEq, Eq, Structural)]
pub enum NewPaneFrom {
    /// Where the focused pane is.
    Inherit,
    StartingDir,
}

/// What runs, and where.
#[derive(Debug, Clone, PartialEq, Eq)]
pub struct ShellSettings {
    /// The program, or none to follow the environment.
    pub program: Option<String>,
    /// The directory, or none for the home directory.
    pub starting_dir: Option<String>,
    pub new_pane_from: NewPaneFrom,
    pub focus_new_panes: bool,
}

/// [`ShellSettings`] with its texts as character sequences.
#[verifier::ext_equal]
pub struct ShellView {
    pub program: Option<Seq<char>>,
    pub starting_dir: Option<Seq<char>>,
    pub new_pane_from: NewPaneFrom,
    pub focus_new_panes: bool,
}

/// What an optional text spells.
pub open spec fn spelled(t: Option<String>) -> Option<Seq<char>> {
    match t {
        Some(s) => Some(s@),
        None => None,
    }
}

impl View for ShellSettings {
    type V = ShellView;

    open spec fn view(&self) -> ShellView {
        ShellView {
            program: spelled(self.program),
            starting_dir: spelled(self.starting_dir),
            new_pane_from: self.new_pane_from,
            focus_new_panes: self.focus_new_panes,
        }
    }
}

/// A shell that follows the environment.
pub open spec fn default_shell() -> ShellView {
    ShellView {
        program: None,
        starting_dir: None,
        new_pane_from: NewPaneFrom::Inherit,
        focus_new_panes: true,
    }
}

impl Default for ShellSettings {
    fn default() -> (s: ShellSettings)
        ensures
            s@ == default_shell(),
    {
        ShellSettings {
            program: None,
            starting_dir: None,
            new_pane_from: NewPaneFrom::Inherit,
            focus_new_panes: true,
        }
    }
}

/// The light behind the grid.
#[derive(Debug, Clone, Copy, PartialEq, Eq, Structural)]
pub struct AmbientSettings {
    pub enabled: bool,
    pub intensity: Single,
}

/// The least intensity, 0.0.
pub const AMBIENT_LEAST: u32 = ZERO;

/// The greatest intensity, 2.0.
pub const AMBIENT_MOST: u32 = TWO;

/// The light unless it is told otherwise.
pub open spec fn default_ambient() -> AmbientSettings {
    AmbientSettings { enabled: true, intensity: Single { bits: ONE } }
}

impl Default for AmbientSettings {
    fn default() -> (a: AmbientSettings)
        ensures
            a == default_ambient(),
    {
        AmbientSettings { enabled: true, intensity: Single { bits: ONE } }
    }
}

/// All settings.
#[derive(Debug, Clone, PartialEq, Eq)]
pub struct Settings {
    pub theme: String,
    pub font_family: String,
    pub font_size: Single,
    pub bell: Bell,
    pub columns: u16,
    pub rows: u16,
    pub scrollback: u32,
    /// Frames per second at most, or 0 to follow the display. Any cap implies a
    /// timer.
    pub frame_cap: u16,
    pub substitute_progress: bool,
    pub substitute_spinner: bool,
    pub motion: MotionSettings,
    pub ambient: AmbientSettings,
    pub shell: ShellSettings,
    /// Bindings that differ from the defaults. A chord is a text here; an empty
    /// one unbinds its action.
    pub keys: KeyMap,
}

/// [`Settings`] with its texts as character sequences.
#[verifier::ext_equal]
pub struct SettingsView {
    pub theme: Seq<char>,
    pub font_family: Seq<char>,
    pub font_size: Single,
    pub bell: Bell,
    pub columns: u16,
    pub rows: u16,
    pub scrollback: u32,
    pub frame_cap: u16,
    pub substitute_progress: bool,
    pub substitute_spinner: bool,
    pub motion: MotionSettings,
    pub ambient: AmbientSettings,
    pub shell: ShellView,
    pub keys: Seq<(Seq<char>, Seq<char>)>,
}

impl View for Settings {
    type V = SettingsView;

    open spec fn view(&self) -> SettingsView {
        SettingsView {
            theme: self.theme@,
            font_family: self.font_family@,
            font_size: self.font_size,
            bell: self.bell,
            columns: self.columns,
            rows: self.rows,
            scrollback: self.scrollback,
            frame_cap: self.frame_cap,
            substitute_progress: self.substitute_progress,
            substitute_spinner: self.substitute_spinner,
            motion: self.motion,
            ambient: self.ambient,
            shell: self.shell@,
            keys: self.keys@,
        }
    }
}

pub const DEFAULT_FONT: &'static str = "JetBrains Mono";

/// 13.0
pub const DEFAULT_FONT_SIZE: u32 = 0x4150_0000;

/// What everything is set to unless it is told otherwise.
pub open spec fn default_settings() -> SettingsView {
    SettingsView {
        theme: DEFAULT_THEME@,
        font_family: DEFAULT_FONT@,
        font_size: Single { bits: DEFAULT_FONT_SIZE },
        bell: Bell::Off,
        columns: 118,
        rows: 34,
        scrollback: 10000,
        frame_cap: 0,
        substitute_progress: false,
        substitute_spinner: false,
        motion: default_motion(),
        ambient: default_ambient(),
        shell: default_shell(),
        keys: Seq::empty(),
    }
}

impl Default for Settings {
    fn default() -> (s: Settings)
        ensures
            s@ == default_settings(),
            s.keys.wf(),
    {
        Settings {
            theme: DEFAULT_THEME.to_owned(),
            font_family: DEFAULT_FONT.to_owned(),
            font_size: Single { bits: DEFAULT_FONT_SIZE },
            bell: Bell::Off,
            columns: 118,
            rows: 34,
            scrollback: 10000,
            frame_cap: 0,
            substitute_progress: false,
            substitute_spinner: false,
            motion: MotionSettings::default(),
            ambient: AmbientSettings::default(),
            shell: ShellSettings::default(),
            keys: KeyMap::new(),
        }
    }
}

/// The section on looks.
#[derive(Debug, Clone, PartialEq, Eq)]
pub struct Appearance {
    pub theme: Option<String>,
    pub font_family: Option<String>,
    pub font_size: Option<Single>,
}

/// The section on the grid and the bell.
#[derive(Debug, Clone, PartialEq, Eq)]
pub struct Window {
    pub bell: Option<Bell>,
    pub columns: Option<u16>,
    pub rows: Option<u16>,
    pub scrollback: Option<u32>,
}

/// The section on drawing.
#[derive(Debug, Clone, PartialEq, Eq)]
pub struct Renderer {
    pub frame_cap: Option<u16>,
    pub substitute_progress: Option<bool>,
    pub substitute_spinner: Option<bool>,
}

/// The section on the caret.
#[derive(Debug, Clone, PartialEq, Eq)]
pub struct Motion {
    pub reduce: Option<bool>,
    /// A style's name. One that is not known is passed over, so that a file of a
    /// later version still opens.
    pub cursor: Option<String>,
    pub speed: Option<Single>,
    pub intensity: Option<Single>,
    pub decay: Option<bool>,
    pub blink: Option<bool>,
}

/// The section on the light behind the grid.
#[derive(Debug, Clone, PartialEq, Eq)]
pub struct Ambient {
    pub enabled: Option<bool>,
    pub intensity: Option<Single>,
}

/// The section on what runs.
#[derive(Debug, Clone, PartialEq, Eq)]
pub struct Shell {
    /// Empty to follow the environment.
    pub program: Option<String>,
    /// Empty for the home directory.
    pub starting_dir: Option<String>,
    pub new_pane_from: Option<NewPaneFrom>,
    pub focus_new_panes: Option<bool>,
}

/// A settings file: every section optional, every value optional.
#[derive(Debug, Clone, PartialEq, Eq)]
pub struct SettingsFile {
    pub appearance: Option<Appearance>,
    pub window: Option<Window>,
    pub renderer: Option<Renderer>,
    pub motion: Option<Motion>,
    pub ambient: Option<Ambient>,
    pub shell: Option<Shell>,
    pub keys: Option<KeyMap>,
}

/// A settings file's values, whatever section they are in, with its texts as
/// character sequences.
#[verifier::ext_equal]
pub struct FileView {
    pub theme: Option<Seq<char>>,
    pub font_family: Option<Seq<char>>,
    pub font_size: Option<Single>,
    pub bell: Option<Bell>,
    pub columns: Option<u16>,
    pub rows: Option<u16>,
    pub scrollback: Option<u32>,
    pub frame_cap: Option<u16>,
    pub substitute_progress: Option<bool>,
    pub substitute_spinner: Option<bool>,
    pub reduce: Option<bool>,
    pub cursor: Option<Seq<char>>,
    pub speed: Option<Single>,
    pub intensity: Option<Single>,
    pub decay: Option<bool>,
    pub blink: Option<bool>,
    pub ambient_enabled: Option<bool>,
    pub ambient_intensity: Option<Single>,
    pub program: Option<Seq<char>>,
    pub starting_dir: Option<Seq<char>>,
    pub new_pane_from: Option<NewPaneFrom>,
    pub focus_new_panes: Option<bool>,
    pub keys: Option<Seq<(Seq<char>, Seq<char>)>>,
}

impl View for SettingsFile {
    type V = FileView;

    open spec fn view(&self) -> FileView {
        FileView {
            theme: match self.appearance {
                Some(a) => spelled(a.theme),
                None => None,
            },
            font_family: match self.appearance {
                Some(a) => spelled(a.font_family),
                None => None,
            },
            font_size: match self.appearance {
                Some(a) => a.font_size,
                None => None,
            },
            bell: match self.window {
                Some(w) => w.bell,
                None => None,
            },
            columns: match self.window {
                Some(w) => w.columns,
                None => None,
            },
            rows: match self.window {
                Some(w) => w.rows,
                None => None,
            },
            scrollback: match self.window {
                Some(w) => w.scrollback,
                None => None,
            },
            frame_cap: match self.renderer {
                Some(r) => r.frame_cap,
                None => None,
            },
            substitute_progress: match self.renderer {
                Some(r) => r.substitute_progress,
                None => None,
            },
            substitute_spinner: match self.renderer {
                Some(r) => r.substitute_spinner,
                None => None,
            },
            reduce: match self.motion {
                Some(m) => m.reduce,
                None => None,
            },
            cursor: match self.motion {
                Some(m) => spelled(m.cursor),
                None => None,
            },
            speed: match self.motion {
                Some(m) => m.speed,
                None => None,
            },
            intensity: match self.motion {
                Some(m) => m.intensity,
                None => None,
            },
            decay: match self.motion {
                Some(m) => m.decay,
                None => None,
            },
            blink: match self.motion {
                Some(m) => m.blink,
                None => None,
            },
            ambient_enabled: match self.ambient {
                Some(a) => a.enabled,
                None => None,
            },
            ambient_intensity: match self.ambient {
                Some(a) => a.intensity,
                None => None,
            },
            program: match self.shell {
                Some(s) => spelled(s.program),
                None => None,
            },
            starting_dir: match self.shell {
                Some(s) => spelled(s.starting_dir),
                None => None,
            },
            new_pane_from: match self.shell {
                Some(s) => s.new_pane_from,
                None => None,
            },
            focus_new_panes: match self.shell {
                Some(s) => s.focus_new_panes,
                None => None,
            },
            keys: match self.keys {
                Some(k) => Some(k@),
                None => None,
            },
        }
    }
}

impl SettingsFile {
    /// Whether the bindings, where there are any, are in order.
    pub open spec fn wf(self) -> bool {
        self.keys matches Some(k) ==> k.wf()
    }

    /// Whether no section is there without a value.
    pub open spec fn no_empty_section(self) -> bool {
        &&& self.appearance matches Some(a) ==> a.theme is Some || a.font_family is Some
            || a.font_size is Some
        &&& self.window matches Some(w) ==> w.bell is Some || w.columns is Some || w.rows is Some
            || w.scrollback is Some
        &&& self.renderer matches Some(r) ==> r.frame_cap is Some || r.substitute_progress is Some
            || r.substitute_spinner is Some
        &&& self.motion matches Some(m) ==> m.reduce is Some || m.cursor is Some || m.speed is Some
            || m.intensity is Some || m.decay is Some || m.blink is Some
        &&& self.ambient matches Some(a) ==> a.enabled is Some || a.intensity is Some
        &&& self.shell matches Some(s) ==> s.program is Some || s.starting_dir is Some
            || s.new_pane_from is Some || s.focus_new_panes is Some
        &&& self.keys matches Some(k) ==> k@.len() > 0
    }
}

/// A value, or what it is otherwise.
pub open spec fn over<T>(value: Option<T>, otherwise: T) -> T {
    match value {
        Some(v) => v,
        None => otherwise,
    }
}

/// A text, where it is not empty.
pub open spec fn unless_empty(t: Option<Seq<char>>, otherwise: Option<Seq<char>>) -> Option<
    Seq<char>,
> {
    match t {
        Some(s) => if s.len() == 0 {
            None
        } else {
            Some(s)
        },
        None => otherwise,
    }
}

/// How the caret behaves by a file.
pub open spec fn motion_of(f: FileView) -> MotionSettings {
    let d = default_motion();
    sanitised_motion(
        MotionSettings {
            style: match f.cursor {
                Some(id) => over(style_named(id), d.style),
                None => d.style,
            },
            speed: over(f.speed, d.speed),
            intensity: over(f.intensity, d.intensity),
            decay: over(f.decay, d.decay),
            blink: over(f.blink, d.blink),
            reduce: over(f.reduce, d.reduce),
        },
    )
}

/// The light behind the grid by a file.
pub open spec fn ambient_of(f: FileView) -> AmbientSettings {
    AmbientSettings {
        enabled: over(f.ambient_enabled, default_ambient().enabled),
        intensity: sane(
            over(f.ambient_intensity, default_ambient().intensity),
            AMBIENT_LEAST,
            AMBIENT_MOST,
            ONE,
        ),
    }
}

/// What runs by a file.
pub open spec fn shell_of(f: FileView) -> ShellView {
    ShellView {
        program: unless_empty(f.program, default_shell().program),
        starting_dir: unless_empty(f.starting_dir, default_shell().starting_dir),
        new_pane_from: over(f.new_pane_from, default_shell().new_pane_from),
        focus_new_panes: over(f.focus_new_panes, default_shell().focus_new_panes),
    }
}

/// The settings that a file stands for: its values over the defaults, brought in
/// bounds.
pub open spec fn resolved(f: FileView) -> SettingsView {
    let d = default_settings();
    SettingsView {
        theme: over(f.theme, d.theme),
        font_family: over(f.font_family, d.font_family),
        font_size: over(f.font_size, d.font_size),
        bell: over(f.bell, d.bell),
        columns: at_least_one(over(f.columns, d.columns)),
        rows: at_least_one(over(f.rows, d.rows)),
        scrollback: over(f.scrollback, d.scrollback),
        frame_cap: over(f.frame_cap, d.frame_cap),
        substitute_progress: over(f.substitute_progress, d.substitute_progress),
        substitute_spinner: over(f.substitute_spinner, d.substitute_spinner),
        motion: motion_of(f),
        ambient: ambient_of(f),
        shell: shell_of(f),
        keys: over(f.keys, d.keys),
    }
}

/// A value, where it differs.
pub open spec fn changed<T>(value: T, otherwise: T) -> Option<T> {
    if value == otherwise {
        None
    } else {
        Some(value)
    }
}

/// A number, where it differs.
pub open spec fn changed_number(value: Single, otherwise: Single) -> Option<Single> {
    if value.same(otherwise) {
        None
    } else {
        Some(value)
    }
}

/// A file with only what differs from the defaults.
pub open spec fn differences(s: SettingsView) -> FileView {
    let d = default_settings();
    FileView {
        theme: changed(s.theme, d.theme),
        font_family: changed(s.font_family, d.font_family),
        font_size: changed_number(s.font_size, d.font_size),
        bell: changed(s.bell, d.bell),
        columns: changed(s.columns, d.columns),
        rows: changed(s.rows, d.rows),
        scrollback: changed(s.scrollback, d.scrollback),
        frame_cap: changed(s.frame_cap, d.frame_cap),
        substitute_progress: changed(s.substitute_progress, d.substitute_progress),
        substitute_spinner: changed(s.substitute_spinner, d.substitute_spinner),
        reduce: changed(s.motion.reduce, d.motion.reduce),
        cursor: if s.motion.style == d.motion.style {
            None
        } else {
            Some(style_id(s.motion.style))
        },
        speed: changed_number(s.motion.speed, d.motion.speed),
        intensity: changed_number(s.motion.intensity, d.motion.intensity),
        decay: changed(s.motion.decay, d.motion.decay),
        blink: changed(s.motion.blink, d.motion.blink),
        ambient_enabled: changed(s.ambient.enabled, d.ambient.enabled),
        ambient_intensity: changed_number(s.ambient.intensity, d.ambient.intensity),
        program: s.shell.program,
        starting_dir: s.shell.starting_dir,
        new_pane_from: changed(s.shell.new_pane_from, d.shell.new_pane_from),
        focus_new_panes: changed(s.shell.focus_new_panes, d.shell.focus_new_panes),
        keys: if s.keys.len() == 0 {
            None
        } else {
            Some(s.keys)
        },
    }
}

/// A file with every value. What follows the environment is written empty, so
/// that it is there to be edited.
pub open spec fn complete(s: SettingsView) -> FileView {
    FileView {
        theme: Some(s.theme),
        font_family: Some(s.font_family),
        font_size: Some(s.font_size),
        bell: Some(s.bell),
        columns: Some(s.columns),
        rows: Some(s.rows),
        scrollback: Some(s.scrollback),
        frame_cap: Some(s.frame_cap),
        substitute_progress: Some(s.substitute_progress),
        substitute_spinner: Some(s.substitute_spinner),
        reduce: Some(s.motion.reduce),
        cursor: Some(style_id(s.motion.style)),
        speed: Some(s.motion.speed),
        intensity: Some(s.motion.intensity),
        decay: Some(s.motion.decay),
        blink: Some(s.motion.blink),
        ambient_enabled: Some(s.ambient.enabled),
        ambient_intensity: Some(s.ambient.intensity),
        program: Some(over(s.shell.program, Seq::empty())),
        starting_dir: Some(over(s.shell.starting_dir, Seq::empty())),
        new_pane_from: Some(s.shell.new_pane_from),
        focus_new_panes: Some(s.shell.focus_new_panes),
        keys: Some(s.keys),
    }
}

/// Whether settings are such as reading a file gives.
pub open spec fn in_bounds(s: SettingsView) -> bool {
    &&& s.columns >= 1
    &&& s.rows >= 1
    &&& sanitised_motion(s.motion) == s.motion
    &&& sane(s.ambient.intensity, AMBIENT_LEAST, AMBIENT_MOST, ONE) == s.ambient.intensity
    &&& s.shell.program matches Some(p) ==> p.len() > 0
    &&& s.shell.starting_dir matches Some(p) ==> p.len() > 0
}

/// Reading a file always gives settings in bounds.
pub proof fn law_a_file_gives_settings_in_bounds(f: FileView)
    ensures
        in_bounds(resolved(f)),
{
    reveal(sane);
}

/// Untouched settings write nothing at all.
pub proof fn law_defaults_write_nothing()
    ensures
        differences(default_settings()) == differences_of_nothing(),
{
    reveal(Single::same);
}

/// A file without a value.
pub open spec fn differences_of_nothing() -> FileView {
    FileView {
        theme: None,
        font_family: None,
        font_size: None,
        bell: None,
        columns: None,
        rows: None,
        scrollback: None,
        frame_cap: None,
        substitute_progress: None,
        substitute_spinner: None,
        reduce: None,
        cursor: None,
        speed: None,
        intensity: None,
        decay: None,
        blink: None,
        ambient_enabled: None,
        ambient_intensity: None,
        program: None,
        starting_dir: None,
        new_pane_from: None,
        focus_new_panes: None,
        keys: None,
    }
}

/// A file without a value gives the defaults.
pub proof fn law_an_empty_file_gives_the_defaults()
    ensures
        resolved(differences_of_nothing()) == default_settings(),
{
    reveal(sane);
}

/// A number survives being left out where it is the default.
proof fn lemma_number_survives(a: Single, bits: u32)
    requires
        0 < bits < 0x7F80_0000,
    ensures
        over(changed_number(a, Single { bits }), Single { bits }) == a,
{
    reveal(Single::same);
}

proof fn lemma_motion_survives(s: SettingsView)
    requires
        sanitised_motion(s.motion) == s.motion,
    ensures
        motion_of(differences(s)) == s.motion,
        motion_of(complete(s)) == s.motion,
{
    crate::motion::law_styles_are_found_by_name(s.motion.style);
    lemma_number_survives(s.motion.speed, ONE);
    lemma_number_survives(s.motion.intensity, crate::motion::SEVEN_TENTHS);
    let f = differences(s);
    assert(over(f.speed, default_motion().speed) == s.motion.speed);
    assert(over(f.intensity, default_motion().intensity) == s.motion.intensity);
}

/// What is written reads back as the settings it was written from, whether only
/// the differences were written or everything.
pub proof fn law_settings_survive_their_file(s: SettingsView)
    requires
        in_bounds(s),
    ensures
        resolved(differences(s)) == s,
        resolved(complete(s)) == s,
{
    lemma_motion_survives(s);
    lemma_number_survives(s.font_size, DEFAULT_FONT_SIZE);
    lemma_number_survives(s.ambient.intensity, ONE);
    let f = differences(s);
    assert(over(f.font_size, default_settings().font_size) == s.font_size);
    assert(ambient_of(f) == s.ambient);
    assert(shell_of(f) =~= s.shell);
    assert(over(f.keys, default_settings().keys) =~= s.keys);
    assert(resolved(f) =~= s);
    assert(ambient_of(complete(s)) == s.ambient);
    assert(shell_of(complete(s)) =~= s.shell);
    assert(resolved(complete(s)) =~= s);
}

impl Settings {
    /// The settings that a file stands for.
    pub fn from_file(file: &SettingsFile) -> (s: Settings)
        requires
            file.wf(),
        ensures
            s@ == resolved(file@),
            s.keys.wf(),
    {
        let mut s = Settings::default();
        if let Some(a) = &file.appearance {
            if let Some(v) = &a.theme {
                s.theme = v.as_str().to_owned();
            }
            if let Some(v) = &a.font_family {
                s.font_family = v.as_str().to_owned();
            }
            if let Some(v) = a.font_size {
                s.font_size = v;
            }
        }
        if let Some(w) = &file.window {
            if let Some(v) = w.bell {
                s.bell = v;
            }
            if let Some(v) = w.columns {
                s.columns = no_less_than_one(v);
            }
            if let Some(v) = w.rows {
                s.rows = no_less_than_one(v);
            }
            if let Some(v) = w.scrollback {
                s.scrollback = v;
            }
        }
        if let Some(r) = &file.renderer {
            if let Some(v) = r.frame_cap {
                s.frame_cap = v;
            }
            if let Some(v) = r.substitute_progress {
                s.substitute_progress = v;
            }
            if let Some(v) = r.substitute_spinner {
                s.substitute_spinner = v;
            }
        }
        s.motion = motion_from(file);
        s.ambient = ambient_from(file);
        s.shell = shell_from(file);
        if let Some(keys) = &file.keys {
            s.keys = keys.copy();
        }
        assert(s@ =~= resolved(file@));
        s
    }

    /// A file with only what differs from the defaults, and no empty section.
    pub fn to_file(&self) -> (f: SettingsFile)
        requires
            self.keys.wf(),
        ensures
            f@ == differences(self@),
            f.wf(),
            f.no_empty_section(),
    {
        let f = SettingsFile {
            appearance: self.appearance_changes(),
            window: self.window_changes(),
            renderer: self.renderer_changes(),
            motion: self.motion_changes(),
            ambient: self.ambient_changes(),
            shell: self.shell_changes(),
            keys: if self.keys.is_empty() {
                None
            } else {
                Some(self.keys.copy())
            },
        };
        assert(f@ =~= differences(self@));
        f
    }

    fn appearance_changes(&self) -> (r: Option<Appearance>)
        ensures
            ({
                let f = differences(self@);
                match r {
                    Some(a) => {
                        &&& spelled(a.theme) == f.theme
                        &&& spelled(a.font_family) == f.font_family
                        &&& a.font_size == f.font_size
                        &&& a.theme is Some || a.font_family is Some || a.font_size is Some
                    },
                    None => f.theme is None && f.font_family is None && f.font_size is None,
                }
            }),
    {
        let theme = text_change(self.theme.as_str(), DEFAULT_THEME);
        let font_family = text_change(self.font_family.as_str(), DEFAULT_FONT);
        let font_size = number_change(self.font_size, Single { bits: DEFAULT_FONT_SIZE });
        if theme.is_some() || font_family.is_some() || font_size.is_some() {
            Some(Appearance { theme, font_family, font_size })
        } else {
            None
        }
    }

    fn window_changes(&self) -> (r: Option<Window>)
        ensures
            ({
                let f = differences(self@);
                match r {
                    Some(w) => {
                        &&& w.bell == f.bell
                        &&& w.columns == f.columns
                        &&& w.rows == f.rows
                        &&& w.scrollback == f.scrollback
                        &&& w.bell is Some || w.columns is Some || w.rows is Some
                            || w.scrollback is Some
                    },
                    None => f.bell is None && f.columns is None && f.rows is None
                        && f.scrollback is None,
                }
            }),
    {
        let bell = match self.bell {
            Bell::Off => None,
            other => Some(other),
        };
        let columns = if self.columns == 118 {
            None
        } else {
            Some(self.columns)
        };
        let rows = if self.rows == 34 {
            None
        } else {
            Some(self.rows)
        };
        let scrollback = if self.scrollback == 10000 {
            None
        } else {
            Some(self.scrollback)
        };
        if bell.is_some() || columns.is_some() || rows.is_some() || scrollback.is_some() {
            Some(Window { bell, columns, rows, scrollback })
        } else {
            None
        }
    }

    fn renderer_changes(&self) -> (r: Option<Renderer>)
        ensures
            ({
                let f = differences(self@);
                match r {
                    Some(v) => {
                        &&& v.frame_cap == f.frame_cap
                        &&& v.substitute_progress == f.substitute_progress
                        &&& v.substitute_spinner == f.substitute_spinner
                        &&& v.frame_cap is Some || v.substitute_progress is Some
                            || v.substitute_spinner is Some
                    },
                    None => f.frame_cap is None && f.substitute_progress is None
                        && f.substitute_spinner is None,
                }
            }),
    {
        let frame_cap = if self.frame_cap == 0 {
            None
        } else {
            Some(self.frame_cap)
        };
        let substitute_progress = flag_change(self.substitute_progress, false);
        let substitute_spinner = flag_change(self.substitute_spinner, false);
        if frame_cap.is_some() || substitute_progress.is_some() || substitute_spinner.is_some() {
            Some(Renderer { frame_cap, substitute_progress, substitute_spinner })
        } else {
            None
        }
    }

    fn motion_changes(&self) -> (r: Option<Motion>)
        ensures
            ({
                let f = differences(self@);
                match r {
                    Some(m) => {
                        &&& m.reduce == f.reduce
                        &&& spelled(m.cursor) == f.cursor
                        &&& m.speed == f.speed
                        &&& m.intensity == f.intensity
                        &&& m.decay == f.decay
                        &&& m.blink == f.blink
                        &&& m.reduce is Some || m.cursor is Some || m.speed is Some
                            || m.intensity is Some || m.decay is Some || m.blink is Some
                    },
                    None => f.reduce is None && f.cursor is None && f.speed is None
                        && f.intensity is None && f.decay is None && f.blink is None,
                }
            }),
    {
        let d = MotionSettings::default();
        let reduce = flag_change(self.motion.reduce, d.reduce);
        let cursor = if self.motion.style == d.style {
            None
        } else {
            Some(self.motion.style.id().to_owned())
        };
        let speed = number_change(self.motion.speed, d.speed);
        let intensity = number_change(self.motion.intensity, d.intensity);
        let decay = flag_change(self.motion.decay, d.decay);
        let blink = flag_change(self.motion.blink, d.blink);
        if reduce.is_some() || cursor.is_some() || speed.is_some() || intensity.is_some()
            || decay.is_some() || blink.is_some() {
            Some(Motion { reduce, cursor, speed, intensity, decay, blink })
        } else {
            None
        }
    }

    fn ambient_changes(&self) -> (r: Option<Ambient>)
        ensures
            ({
                let f = differences(self@);
                match r {
                    Some(a) => {
                        &&& a.enabled == f.ambient_enabled
                        &&& a.intensity == f.ambient_intensity
                        &&& a.enabled is Some || a.intensity is Some
                    },
                    None => f.ambient_enabled is None && f.ambient_intensity is None,
                }
            }),
    {
        let d = AmbientSettings::default();
        let enabled = flag_change(self.ambient.enabled, d.enabled);
        let intensity = number_change(self.ambient.intensity, d.intensity);
        if enabled.is_some() || intensity.is_some() {
            Some(Ambient { enabled, intensity })
        } else {
            None
        }
    }

    fn shell_changes(&self) -> (r: Option<Shell>)
        ensures
            ({
                let f = differences(self@);
                match r {
                    Some(s) => {
                        &&& spelled(s.program) == f.program
                        &&& spelled(s.starting_dir) == f.starting_dir
                        &&& s.new_pane_from == f.new_pane_from
                        &&& s.focus_new_panes == f.focus_new_panes
                        &&& s.program is Some || s.starting_dir is Some || s.new_pane_from is Some
                            || s.focus_new_panes is Some
                    },
                    None => f.program is None && f.starting_dir is None && f.new_pane_from is None
                        && f.focus_new_panes is None,
                }
            }),
    {
        let program = copy_text(&self.shell.program);
        let starting_dir = copy_text(&self.shell.starting_dir);
        let new_pane_from = match self.shell.new_pane_from {
            NewPaneFrom::Inherit => None,
            NewPaneFrom::StartingDir => Some(NewPaneFrom::StartingDir),
        };
        let focus_new_panes = flag_change(self.shell.focus_new_panes, true);
        if program.is_some() || starting_dir.is_some() || new_pane_from.is_some()
            || focus_new_panes.is_some() {
            Some(Shell { program, starting_dir, new_pane_from, focus_new_panes })
        } else {
            None
        }
    }

    /// A file with every value.
    pub fn to_file_complete(&self) -> (f: SettingsFile)
        requires
            self.keys.wf(),
        ensures
            f@ == complete(self@),
            f.wf(),
    {
        let f = SettingsFile {
            appearance: Some(
                Appearance {
                    theme: Some(self.theme.as_str().to_owned()),
                    font_family: Some(self.font_family.as_str().to_owned()),
                    font_size: Some(self.font_size),
                },
            ),
            window: Some(
                Window {
                    bell: Some(self.bell),
                    columns: Some(self.columns),
                    rows: Some(self.rows),
                    scrollback: Some(self.scrollback),
                },
            ),
            renderer: Some(
                Renderer {
                    frame_cap: Some(self.frame_cap),
                    substitute_progress: Some(self.substitute_progress),
                    substitute_spinner: Some(self.substitute_spinner),
                },
            ),
            motion: Some(
                Motion {
                    reduce: Some(self.motion.reduce),
                    cursor: Some(self.motion.style.id().to_owned()),
                    speed: Some(self.motion.speed),
                    intensity: Some(self.motion.intensity),
                    decay: Some(self.motion.decay),
                    blink: Some(self.motion.blink),
                },
            ),
            ambient: Some(
                Ambient {
                    enabled: Some(self.ambient.enabled),
                    intensity: Some(self.ambient.intensity),
                },
            ),
            shell: Some(
                Shell {
                    program: Some(or_empty(&self.shell.program)),
                    starting_dir: Some(or_empty(&self.shell.starting_dir)),
                    new_pane_from: Some(self.shell.new_pane_from),
                    focus_new_panes: Some(self.shell.focus_new_panes),
                },
            ),
            keys: Some(self.keys.copy()),
        };
        assert(f@ =~= complete(self@));
        f
    }
}

fn motion_from(file: &SettingsFile) -> (m: MotionSettings)
    ensures
        m == motion_of(file@),
{
    let mut motion = MotionSettings::default();
    if let Some(m) = &file.motion {
        if let Some(v) = m.reduce {
            motion.reduce = v;
        }
        if let Some(id) = &m.cursor {
            if let Some(v) = MotionStyle::from_id(id.as_str()) {
                motion.style = v;
            }
        }
        if let Some(v) = m.speed {
            motion.speed = v;
        }
        if let Some(v) = m.intensity {
            motion.intensity = v;
        }
        if let Some(v) = m.decay {
            motion.decay = v;
        }
        if let Some(v) = m.blink {
            motion.blink = v;
        }
    }
    // Brought in bounds rather than trusted: it is here that a file edited by
    // hand comes in.
    motion.sanitised()
}

fn ambient_from(file: &SettingsFile) -> (a: AmbientSettings)
    ensures
        a == ambient_of(file@),
{
    let mut ambient = AmbientSettings::default();
    if let Some(a) = &file.ambient {
        if let Some(v) = a.enabled {
            ambient.enabled = v;
        }
        if let Some(v) = a.intensity {
            ambient.intensity = v;
        }
    }
    ambient.intensity = make_sane(ambient.intensity, AMBIENT_LEAST, AMBIENT_MOST, ONE);
    ambient
}

fn shell_from(file: &SettingsFile) -> (s: ShellSettings)
    ensures
        s@ == shell_of(file@),
{
    let mut shell = ShellSettings::default();
    if let Some(sh) = &file.shell {
        if let Some(v) = &sh.program {
            shell.program = none_if_empty(v);
        }
        if let Some(v) = &sh.starting_dir {
            shell.starting_dir = none_if_empty(v);
        }
        if let Some(v) = sh.new_pane_from {
            shell.new_pane_from = v;
        }
        if let Some(v) = sh.focus_new_panes {
            shell.focus_new_panes = v;
        }
    }
    assert(shell@ =~= shell_of(file@));
    shell
}

fn no_less_than_one(n: u16) -> (m: u16)
    ensures
        m == at_least_one(n),
{
    if n == 0 {
        1
    } else {
        n
    }
}

fn none_if_empty(t: &String) -> (r: Option<String>)
    ensures
        spelled(r) == unless_empty(Some(t@), None),
{
    if chars_of(t.as_str()).len() == 0 {
        None
    } else {
        Some(t.as_str().to_owned())
    }
}

fn or_empty(t: &Option<String>) -> (r: String)
    ensures
        r@ == over(spelled(*t), Seq::empty()),
{
    match t {
        Some(s) => s.as_str().to_owned(),
        None => {
            let r = String::new();
            assert(r@ =~= Seq::empty());
            r
        },
    }
}

fn copy_text(t: &Option<String>) -> (r: Option<String>)
    ensures
        spelled(r) == spelled(*t),
{
    match t {
        Some(s) => Some(s.as_str().to_owned()),
        None => None,
    }
}

fn text_change(value: &str, otherwise: &str) -> (r: Option<String>)
    ensures
        spelled(r) == changed(value@, otherwise@),
{
    if same_text(value, otherwise) {
        None
    } else {
        Some(value.to_owned())
    }
}

fn number_change(value: Single, otherwise: Single) -> (r: Option<Single>)
    ensures
        r == changed_number(value, otherwise),
{
    if value.equals(otherwise) {
        None
    } else {
        Some(value)
    }
}

fn flag_change(value: bool, otherwise: bool) -> (r: Option<bool>)
    ensures
        r == changed(value, otherwise),
{
    if value == otherwise {
        None
    } else {
        Some(value)
    }
}

/// What went wrong with a settings file.
#[derive(Debug, Clone, PartialEq, Eq)]
pub enum SettingsError {
    Io(String),
    Parse(String),
    Serialize(String),
}

/// What is said of an error.
pub open spec fn error_text(e: SettingsError) -> Seq<char> {
    match e {
        SettingsError::Io(t) => "settings io: "@ + t@,
        SettingsError::Parse(t) => "settings parse: "@ + t@,
        SettingsError::Serialize(t) => "settings serialize: "@ + t@,
    }
}

impl SettingsError {
    /// What is said of the error.
    pub fn message(&self) -> (t: String)
        ensures
            t@ == error_text(*self),
    {
        let mut v: Vec<char> = Vec::new();
        match self {
            SettingsError::Io(t) => {
                crate::text::push_text("settings io: ", &mut v);
                crate::text::push_text(t.as_str(), &mut v);
            },
            SettingsError::Parse(t) => {
                crate::text::push_text("settings parse: ", &mut v);
                crate::text::push_text(t.as_str(), &mut v);
            },
            SettingsError::Serialize(t) => {
                crate::text::push_text("settings serialize: ", &mut v);
                crate::text::push_text(t.as_str(), &mut v);
            },
        }
        let n: usize = v.len();
        assert(v@.subrange(0, n as int) =~= error_text(*self));
        crate::text::string_of(&v, 0, n)
    }
}

/// What reading a settings file gave.
#[derive(Debug)]
pub enum ReadOutcome {
    /// The file's values.
    Read(SettingsFile),
    Missing,
    Failed(SettingsError),
}

/// The settings to start with: the defaults where there is no file. A file that
/// cannot be read is an error, not a reason to fall back in silence.
pub fn loaded(outcome: ReadOutcome) -> (r: Result<Settings, SettingsError>)
    requires
        outcome matches ReadOutcome::Read(f) ==> f.wf(),
    ensures
        match outcome {
            ReadOutcome::Read(f) => r matches Ok(s) && s@ == resolved(f@) && s.keys.wf(),
            ReadOutcome::Missing => r matches Ok(s) && s@ == default_settings() && s.keys.wf(),
            ReadOutcome::Failed(e) => r == Err::<Settings, SettingsError>(e),
        },
{
    match outcome {
        ReadOutcome::Read(f) => Ok(Settings::from_file(&f)),
        ReadOutcome::Missing => Ok(Settings::default()),
        ReadOutcome::Failed(e) => Err(e),
    }
}

/// Where the settings are kept.
pub open spec fn settings_path(config: Option<Seq<u8>>, home: Option<Seq<u8>>) -> Seq<u8> {
    let base = match config {
        Some(c) => c,
        None => match home {
            Some(h) => joined(h, encode_utf8(".config"@)),
            None => encode_utf8(".config"@),
        },
    };
    joined(joined(base, encode_utf8("mica"@)), encode_utf8("settings.toml"@))
}

/// Where the settings are kept: under the directory for configurations, if the
/// environment names one, else under the home directory.
pub fn default_path(config: Option<Vec<u8>>, home: &Option<Vec<u8>>) -> (p: Vec<u8>)
    ensures
        p@ == settings_path(bytes_view(config), bytes_view(*home)),
{
    let base = match config {
        Some(c) => c,
        None => match home {
            Some(h) => join(h.as_slice(), ".config".as_bytes()),
            None => slice_to_vec(".config".as_bytes()),
        },
    };
    let dir = join(base.as_slice(), "mica".as_bytes());
    join(dir.as_slice(), "settings.toml".as_bytes())
}

/// Whether a file changed since it was last looked at, by its time of
/// modification in nanoseconds, where it has one.
#[derive(Debug, Clone, PartialEq, Eq)]
pub struct SettingsWatcher {
    pub path: Vec<u8>,
    pub last_modified: Option<u128>,
}

impl SettingsWatcher {
    pub fn new(path: Vec<u8>, modified: Option<u128>) -> (w: SettingsWatcher)
        ensures
            w.path@ == path@,
            w.last_modified == modified,
    {
        SettingsWatcher { path, last_modified: modified }
    }

    pub fn path(&self) -> (p: &[u8])
        ensures
            p@ == self.path@,
    {
        self.path.as_slice()
    }

    /// Says whether the file has to be read again, and remembers its time.
    pub fn poll(&mut self, modified: Option<u128>) -> (changed: bool)
        ensures
            changed == (modified != old(self).last_modified),
            final(self).last_modified == modified,
            final(self).path == old(self).path,
    {
        let same = match (modified, self.last_modified) {
            (Some(a), Some(b)) => a == b,
            (None, None) => true,
            _ => false,
        };
        self.last_modified = modified;
        !same
    }
}

/// What a file says in a section is what is set, value by value, and what it
/// leaves out is as it is for everybody. A grid has at least one column and one
/// row, and an empty program or directory is none.
pub proof fn law_a_file_sets_what_it_names(file: SettingsFile, s: Settings)
    requires
        file.wf(),
        call_ensures(Settings::from_file, (&file,), s),
    ensures
        file.appearance matches Some(a) ==> a.theme matches Some(v) ==> s.theme@ == v@,
        file.appearance matches Some(a) ==> a.font_family matches Some(v) ==> s.font_family@ == v@,
        file.appearance matches Some(a) ==> a.font_size matches Some(v) ==> s.font_size == v,
        file.window matches Some(w) ==> w.bell matches Some(v) ==> s.bell == v,
        file.window matches Some(w) ==> w.columns matches Some(v) ==> v >= 1 ==> s.columns == v,
        file.window matches Some(w) ==> w.columns == Some(0u16) ==> s.columns == 1,
        file.window matches Some(w) ==> w.rows matches Some(v) ==> v >= 1 ==> s.rows == v,
        file.window matches Some(w) ==> w.rows == Some(0u16) ==> s.rows == 1,
        file.window matches Some(w) ==> w.scrollback matches Some(v) ==> s.scrollback == v,
        file.renderer matches Some(r) ==> r.frame_cap matches Some(v) ==> s.frame_cap == v,
        file.renderer matches Some(r) ==> r.substitute_progress matches Some(v)
            ==> s.substitute_progress == v,
        file.renderer matches Some(r) ==> r.substitute_spinner matches Some(v)
            ==> s.substitute_spinner == v,
        file.motion matches Some(m) ==> m.reduce matches Some(v) ==> s.motion.reduce == v,
        file.motion matches Some(m) ==> m.decay matches Some(v) ==> s.motion.decay == v,
        file.motion matches Some(m) ==> m.blink matches Some(v) ==> s.motion.blink == v,
        file.motion matches Some(m) ==> m.cursor matches Some(v) ==> style_named(v@) matches Some(k)
            ==> s.motion.style == k,
        file.motion matches Some(m) ==> m.cursor matches Some(v) ==> style_named(v@) is None
            ==> s.motion.style == MotionStyle::Ease,
        file.motion matches Some(m) ==> m.speed matches Some(v) ==> 0x3E80_0000 <= v.bits
            <= 0x4080_0000 ==> s.motion.speed == v,
        file.motion matches Some(m) ==> m.intensity matches Some(v) ==> v.bits <= 0x3F80_0000
            ==> s.motion.intensity == v,
        file.ambient matches Some(a) ==> a.enabled matches Some(v) ==> s.ambient.enabled == v,
        file.ambient matches Some(a) ==> a.intensity matches Some(v) ==> v.bits <= 0x4000_0000
            ==> s.ambient.intensity == v,
        file.ambient matches Some(a) ==> a.intensity matches Some(v) ==> 0x4000_0000 < v.bits
            <= 0x7F80_0000 ==> s.ambient.intensity.bits == 0x4000_0000,
        file.shell matches Some(h) ==> h.program matches Some(v) ==> v@.len() > 0
            ==> s.shell.program is Some && s.shell.program->0@ == v@,
        file.shell matches Some(h) ==> h.program matches Some(v) ==> v@.len() == 0
            ==> s.shell.program is None,
        file.shell matches Some(h) ==> h.starting_dir matches Some(v) ==> v@.len()
            > 0 ==> s.shell.starting_dir is Some && s.shell.starting_dir->0@ == v@,
        file.shell matches Some(h) ==> h.starting_dir matches Some(v) ==> v@.len() == 0
            ==> s.shell.starting_dir is None,
        file.shell matches Some(h) ==> h.new_pane_from matches Some(v) ==> s.shell.new_pane_from
            == v,
        file.shell matches Some(h) ==> h.focus_new_panes matches Some(v) ==> s.shell.focus_new_panes
            == v,
        file.keys matches Some(k) ==> s.keys@ == k@,
{
    reveal(sane);
}

/// Whatever a file does not name keeps the value that it has for everybody.
pub proof fn law_what_a_file_leaves_out_follows_the_defaults(file: SettingsFile, s: Settings)
    requires
        file.wf(),
        call_ensures(Settings::from_file, (&file,), s),
    ensures
        file.appearance is None || file.appearance->0.theme is None ==> s.theme@ == "slate"@,
        file.appearance is None || file.appearance->0.font_family is None ==> s.font_family@
            == "JetBrains Mono"@,
        file.appearance is None || file.appearance->0.font_size is None ==> s.font_size.bits
            == 0x4150_0000,
        file.window is None || file.window->0.bell is None ==> s.bell == Bell::Off,
        file.window is None || file.window->0.columns is None ==> s.columns == 118,
        file.window is None || file.window->0.rows is None ==> s.rows == 34,
        file.window is None || file.window->0.scrollback is None ==> s.scrollback == 10_000,
        file.renderer is None || file.renderer->0.frame_cap is None ==> s.frame_cap == 0,
        file.renderer is None || file.renderer->0.substitute_progress is None
            ==> !s.substitute_progress,
        file.renderer is None || file.renderer->0.substitute_spinner is None
            ==> !s.substitute_spinner,
        file.motion is None || file.motion->0.cursor is None ==> s.motion.style
            == MotionStyle::Ease,
        file.motion is None || file.motion->0.speed is None ==> s.motion.speed.bits == 0x3F80_0000,
        file.motion is None || file.motion->0.intensity is None ==> s.motion.intensity.bits
            == 0x3F33_3333,
        file.motion is None || file.motion->0.decay is None ==> s.motion.decay,
        file.motion is None || file.motion->0.blink is None ==> !s.motion.blink,
        file.motion is None || file.motion->0.reduce is None ==> !s.motion.reduce,
        file.ambient is None || file.ambient->0.enabled is None ==> s.ambient.enabled,
        file.ambient is None || file.ambient->0.intensity is None ==> s.ambient.intensity.bits
            == 0x3F80_0000,
        file.shell is None || file.shell->0.program is None ==> s.shell.program is None,
        file.shell is None || file.shell->0.starting_dir is None ==> s.shell.starting_dir is None,
        file.shell is None || file.shell->0.new_pane_from is None ==> s.shell.new_pane_from
            == NewPaneFrom::Inherit,
        file.shell is None || file.shell->0.focus_new_panes is None ==> s.shell.focus_new_panes,
        file.keys is None ==> s.keys@.len() == 0,
{
    reveal(sane);
}

/// A file with the differences names a value exactly where it is not the one for
/// everybody, under its own name, and then as it is.
pub proof fn law_only_differences_are_written(s: Settings, f: SettingsFile)
    requires
        s.keys.wf(),
        call_ensures(Settings::to_file, (&s,), f),
    ensures
        s.theme@ == "slate"@ <==> f.appearance is None || f.appearance->0.theme is None,
        f.appearance matches Some(a) ==> a.theme matches Some(v) ==> v@ == s.theme@,
        s.font_family@ == "JetBrains Mono"@ <==> f.appearance is None
            || f.appearance->0.font_family is None,
        f.appearance matches Some(a) ==> a.font_family matches Some(v) ==> v@ == s.font_family@,
        s.font_size.bits == 0x4150_0000 <==> f.appearance is None
            || f.appearance->0.font_size is None,
        f.appearance matches Some(a) ==> a.font_size matches Some(v) ==> v == s.font_size,
        s.bell == Bell::Off <==> f.window is None || f.window->0.bell is None,
        f.window matches Some(w) ==> w.bell matches Some(v) ==> v == s.bell,
        s.columns == 118 <==> f.window is None || f.window->0.columns is None,
        f.window matches Some(w) ==> w.columns matches Some(v) ==> v == s.columns,
        s.rows == 34 <==> f.window is None || f.window->0.rows is None,
        f.window matches Some(w) ==> w.rows matches Some(v) ==> v == s.rows,
        s.scrollback == 10_000 <==> f.window is None || f.window->0.scrollback is None,
        f.window matches Some(w) ==> w.scrollback matches Some(v) ==> v == s.scrollback,
        s.frame_cap == 0 <==> f.renderer is None || f.renderer->0.frame_cap is None,
        f.renderer matches Some(r) ==> r.frame_cap matches Some(v) ==> v == s.frame_cap,
        !s.substitute_progress <==> f.renderer is None
            || f.renderer->0.substitute_progress is None,
        f.renderer matches Some(r) ==> r.substitute_progress matches Some(v) ==> v
            == s.substitute_progress,
        !s.substitute_spinner <==> f.renderer is None || f.renderer->0.substitute_spinner is None,
        f.renderer matches Some(r) ==> r.substitute_spinner matches Some(v) ==> v
            == s.substitute_spinner,
        s.motion.style == MotionStyle::Ease <==> f.motion is None || f.motion->0.cursor is None,
        f.motion matches Some(m) ==> m.cursor matches Some(v) ==> style_named(v@) == Some(
            s.motion.style,
        ),
        s.motion.speed.bits == 0x3F80_0000 <==> f.motion is None || f.motion->0.speed is None,
        f.motion matches Some(m) ==> m.speed matches Some(v) ==> v == s.motion.speed,
        s.motion.intensity.bits == 0x3F33_3333 <==> f.motion is None
            || f.motion->0.intensity is None,
        f.motion matches Some(m) ==> m.intensity matches Some(v) ==> v == s.motion.intensity,
        s.motion.decay <==> f.motion is None || f.motion->0.decay is None,
        !s.motion.blink <==> f.motion is None || f.motion->0.blink is None,
        !s.motion.reduce <==> f.motion is None || f.motion->0.reduce is None,
        f.motion matches Some(m) ==> m.decay matches Some(v) ==> v == s.motion.decay,
        f.motion matches Some(m) ==> m.blink matches Some(v) ==> v == s.motion.blink,
        f.motion matches Some(m) ==> m.reduce matches Some(v) ==> v == s.motion.reduce,
        s.ambient.enabled <==> f.ambient is None || f.ambient->0.enabled is None,
        f.ambient matches Some(a) ==> a.enabled matches Some(v) ==> v == s.ambient.enabled,
        s.ambient.intensity.bits == 0x3F80_0000 <==> f.ambient is None
            || f.ambient->0.intensity is None,
        f.ambient matches Some(a) ==> a.intensity matches Some(v) ==> v == s.ambient.intensity,
        s.shell.program is None <==> f.shell is None || f.shell->0.program is None,
        f.shell matches Some(h) ==> h.program matches Some(v) ==> v@ == s.shell.program->0@,
        s.shell.starting_dir is None <==> f.shell is None || f.shell->0.starting_dir is None,
        f.shell matches Some(h) ==> h.starting_dir matches Some(v) ==> v@
            == s.shell.starting_dir->0@,
        s.shell.new_pane_from == NewPaneFrom::Inherit <==> f.shell is None
            || f.shell->0.new_pane_from is None,
        f.shell matches Some(h) ==> h.new_pane_from matches Some(v) ==> v == s.shell.new_pane_from,
        s.shell.focus_new_panes <==> f.shell is None || f.shell->0.focus_new_panes is None,
        f.shell matches Some(h) ==> h.focus_new_panes matches Some(v) ==> v
            == s.shell.focus_new_panes,
        s.keys@.len() == 0 <==> f.keys is None,
        f.keys matches Some(k) ==> k@ == s.keys@,
{
    reveal(Single::same);
    law_styles_are_found_by_name(s.motion.style);
}

/// A complete file names every value under its own name, as it is. A program or
/// directory that follows the environment is there, empty.
pub proof fn law_a_complete_file_names_everything(s: Settings, f: SettingsFile)
    requires
        s.keys.wf(),
        call_ensures(Settings::to_file_complete, (&s,), f),
    ensures
        f.appearance matches Some(a) && a.theme matches Some(t) && t@ == s.theme@,
        f.appearance matches Some(a) && a.font_family matches Some(t) && t@ == s.font_family@,
        f.appearance matches Some(a) && a.font_size == Some(s.font_size),
        f.window matches Some(w) && w.bell == Some(s.bell) && w.columns == Some(s.columns) && w.rows
            == Some(s.rows) && w.scrollback == Some(s.scrollback),
        f.renderer matches Some(r) && r.frame_cap == Some(s.frame_cap) && r.substitute_progress
            == Some(s.substitute_progress) && r.substitute_spinner == Some(s.substitute_spinner),
        f.motion matches Some(m) && m.reduce == Some(s.motion.reduce) && m.speed == Some(
            s.motion.speed,
        ) && m.intensity == Some(s.motion.intensity) && m.decay == Some(s.motion.decay) && m.blink
            == Some(s.motion.blink),
        f.motion matches Some(m) && m.cursor matches Some(t) && style_named(t@) == Some(
            s.motion.style,
        ),
        f.ambient matches Some(a) && a.enabled == Some(s.ambient.enabled) && a.intensity == Some(
            s.ambient.intensity,
        ),
        f.shell matches Some(h) && h.program matches Some(t) && t@ == match s.shell.program {
            Some(p) => p@,
            None => Seq::<char>::empty(),
        },
        f.shell matches Some(h) && h.starting_dir matches Some(t) && t@ == match
            s.shell.starting_dir {
            Some(p) => p@,
            None => Seq::<char>::empty(),
        },
        f.shell matches Some(h) && h.new_pane_from == Some(s.shell.new_pane_from)
            && h.focus_new_panes == Some(s.shell.focus_new_panes),
        f.keys matches Some(k) && k@ == s.keys@,
{
    law_styles_are_found_by_name(s.motion.style);
}

/// A file that is missing gives the defaults, one that can be read its settings,
/// and one that cannot be read is an error, never the defaults in silence.
pub proof fn law_a_broken_file_is_an_error(
    e: SettingsError,
    missing: Result<Settings, SettingsError>,
    failed: Result<Settings, SettingsError>,
)
    requires
        call_ensures(loaded, (ReadOutcome::Missing,), missing),
        call_ensures(loaded, (ReadOutcome::Failed(e),), failed),
    ensures
        failed == Err::<Settings, SettingsError>(e),
        missing is Ok,
        missing->Ok_0@ == resolved(differences_of_nothing()),
{
    law_an_empty_file_gives_the_defaults();
}

/// The settings lie in the directory for configuration that the environment
/// names, else below the home directory, else below the current one.
pub proof fn law_where_the_settings_lie(config: Option<Seq<u8>>, home: Option<Seq<u8>>)
    ensures
        config matches Some(c) ==> settings_path(config, home) == joined(
            joined(c, "mica"@.map_values(|c: char| c as u8)),
            "settings.toml"@.map_values(|c: char| c as u8),
        ),
        config is None ==> (home matches Some(h) ==> settings_path(config, home) == settings_path(
            Some(joined(h, ".config"@.map_values(|c: char| c as u8))),
            home,
        )),
        config is None && home is None ==> settings_path(config, home) == settings_path(
            Some(".config"@.map_values(|c: char| c as u8)),
            home,
        ),
{
    reveal_strlit("mica");
    reveal_strlit("settings.toml");
    reveal_strlit(".config");
    assert(is_ascii_chars("mica"@));
    assert(is_ascii_chars("settings.toml"@));
    assert(is_ascii_chars(".config"@));
    is_ascii_chars_encode_utf8("mica"@);
    is_ascii_chars_encode_utf8("settings.toml"@);
    is_ascii_chars_encode_utf8(".config"@);
    assert(encode_utf8("mica"@) =~= "mica"@.map_values(|c: char| c as u8));
    assert(encode_utf8("settings.toml"@) =~= "settings.toml"@.map_values(|c: char| c as u8));
    assert(encode_utf8(".config"@) =~= ".config"@.map_values(|c: char| c as u8));
}

/// A file with the differences has no section without a value.
pub proof fn law_no_section_is_empty(s: Settings, f: SettingsFile)
    requires
        s.keys.wf(),
        call_ensures(Settings::to_file, (&s,), f),
    ensures
        f.appearance matches Some(a) ==> a.theme is Some || a.font_family is Some || a.font_size
            is Some,
        f.window matches Some(w) ==> w.bell is Some || w.columns is Some || w.rows is Some
            || w.scrollback is Some,
        f.renderer matches Some(r) ==> r.frame_cap is Some || r.substitute_progress is Some
            || r.substitute_spinner is Some,
        f.motion matches Some(m) ==> m.reduce is Some || m.cursor is Some || m.speed is Some
            || m.intensity is Some || m.decay is Some || m.blink is Some,
        f.ambient matches Some(a) ==> a.enabled is Some || a.intensity is Some,
        f.shell matches Some(h) ==> h.program is Some || h.starting_dir is Some || h.new_pane_from
            is Some || h.focus_new_panes is Some,
        f.keys matches Some(k) ==> k@.len() > 0,
{
}

/// Errors say whether reading, understanding or writing failed, and why.
pub proof fn law_settings_errors_are_told(e: SettingsError, t: String)
    requires
        call_ensures(SettingsError::message, (&e,), t),
    ensures
        e matches SettingsError::Io(why) ==> t@ == "settings io: "@ + why@,
        e matches SettingsError::Parse(why) ==> t@ == "settings parse: "@ + why@,
        e matches SettingsError::Serialize(why) ==> t@ == "settings serialize: "@ + why@,
{
}

} // verus!
