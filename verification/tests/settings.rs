use mica::keymap::KeyMap;
use mica::material::builtin_themes;
use mica::motion::{MotionSettings, MotionStyle, Single};
use mica::reference::{
    config, document, KeyDoc, CONFIG_END, CONFIG_START, FLAGS_END, FLAGS_START,
};
use mica::settings::{
    default_path, loaded, Ambient, Appearance, Bell, Motion, NewPaneFrom, ReadOutcome, Renderer,
    Settings, SettingsError, SettingsFile, SettingsWatcher, Shell, Window,
};
use toml::{Table, Value};

// --- the file as text ---------------------------------------------------------

fn single(v: f32) -> Single {
    Single::new(v.to_bits())
}

fn value(s: Single) -> f32 {
    f32::from_bits(s.bits)
}

/// A number as it is written: the shortest text that reads back the same.
fn number(s: &Single) -> Value {
    Value::Float(format!("{}", value(*s)).parse().unwrap())
}

fn refuse(key: &str) -> SettingsError {
    SettingsError::Parse(format!("unknown field `{key}`"))
}

fn text_of(v: &Value) -> Option<String> {
    v.as_str().map(str::to_owned)
}

fn single_of(v: &Value) -> Option<Single> {
    match v {
        Value::Float(f) => Some(single(*f as f32)),
        Value::Integer(i) => Some(single(*i as f32)),
        _ => None,
    }
}

fn small(v: &Value) -> Option<u16> {
    v.as_integer().map(|i| i as u16)
}

fn read_appearance(t: &Table) -> Result<Appearance, SettingsError> {
    let mut a = Appearance { theme: None, font_family: None, font_size: None };
    for (key, v) in t {
        match key.as_str() {
            "theme" => a.theme = text_of(v),
            "font_family" => a.font_family = text_of(v),
            "font_size" => a.font_size = single_of(v),
            _ => return Err(refuse(key)),
        }
    }
    Ok(a)
}

fn read_window(t: &Table) -> Result<Window, SettingsError> {
    let mut w = Window { bell: None, columns: None, rows: None, scrollback: None };
    for (key, v) in t {
        match key.as_str() {
            "bell" => {
                w.bell = match v.as_str() {
                    Some("audible") => Some(Bell::Audible),
                    Some("visual") => Some(Bell::Visual),
                    Some("off") => Some(Bell::Off),
                    _ => return Err(refuse(key)),
                }
            }
            "columns" => w.columns = small(v),
            "rows" => w.rows = small(v),
            "scrollback" => w.scrollback = v.as_integer().map(|i| i as u32),
            _ => return Err(refuse(key)),
        }
    }
    Ok(w)
}

fn read_renderer(t: &Table) -> Result<Renderer, SettingsError> {
    let mut r = Renderer { frame_cap: None, substitute_progress: None, substitute_spinner: None };
    for (key, v) in t {
        match key.as_str() {
            "frame_cap" => r.frame_cap = small(v),
            "substitute_progress" => r.substitute_progress = v.as_bool(),
            "substitute_spinner" => r.substitute_spinner = v.as_bool(),
            _ => return Err(refuse(key)),
        }
    }
    Ok(r)
}

fn read_motion(t: &Table) -> Result<Motion, SettingsError> {
    let mut m =
        Motion { reduce: None, cursor: None, speed: None, intensity: None, decay: None, blink: None };
    for (key, v) in t {
        match key.as_str() {
            "reduce" => m.reduce = v.as_bool(),
            "cursor" => m.cursor = text_of(v),
            "speed" => m.speed = single_of(v),
            "intensity" => m.intensity = single_of(v),
            "decay" => m.decay = v.as_bool(),
            "blink" => m.blink = v.as_bool(),
            _ => return Err(refuse(key)),
        }
    }
    Ok(m)
}

fn read_ambient(t: &Table) -> Result<Ambient, SettingsError> {
    let mut a = Ambient { enabled: None, intensity: None };
    for (key, v) in t {
        match key.as_str() {
            "enabled" => a.enabled = v.as_bool(),
            "intensity" => a.intensity = single_of(v),
            _ => return Err(refuse(key)),
        }
    }
    Ok(a)
}

fn read_shell(t: &Table) -> Result<Shell, SettingsError> {
    let mut s =
        Shell { program: None, starting_dir: None, new_pane_from: None, focus_new_panes: None };
    for (key, v) in t {
        match key.as_str() {
            "program" => s.program = text_of(v),
            "starting-dir" => s.starting_dir = text_of(v),
            "new-pane-from-focused-pane" => {
                s.new_pane_from = match v.as_str() {
                    Some("inherit") => Some(NewPaneFrom::Inherit),
                    Some("starting-dir") => Some(NewPaneFrom::StartingDir),
                    _ => return Err(refuse(key)),
                }
            }
            "focus-new-panes" => s.focus_new_panes = v.as_bool(),
            _ => return Err(refuse(key)),
        }
    }
    Ok(s)
}

fn read_file(text: &str) -> Result<SettingsFile, SettingsError> {
    let table: Table =
        toml::from_str(text).map_err(|e: toml::de::Error| SettingsError::Parse(e.to_string()))?;
    let mut f = empty_file();
    for (key, v) in &table {
        let section = v.as_table().ok_or_else(|| refuse(key))?;
        match key.as_str() {
            "appearance" => f.appearance = Some(read_appearance(section)?),
            "window" => f.window = Some(read_window(section)?),
            "renderer" => f.renderer = Some(read_renderer(section)?),
            "motion" => f.motion = Some(read_motion(section)?),
            "ambient" => f.ambient = Some(read_ambient(section)?),
            "shell" => f.shell = Some(read_shell(section)?),
            "keys" => {
                let mut keys = KeyMap::new();
                for (action, chord) in section {
                    keys.insert(action.clone(), chord.as_str().unwrap_or_default().to_owned());
                }
                f.keys = Some(keys);
            }
            _ => return Err(refuse(key)),
        }
    }
    Ok(f)
}

fn empty_file() -> SettingsFile {
    SettingsFile {
        appearance: None,
        window: None,
        renderer: None,
        motion: None,
        ambient: None,
        shell: None,
        keys: None,
    }
}

fn put(t: &mut Table, key: &str, v: Option<Value>) {
    if let Some(v) = v {
        t.insert(key.to_owned(), v);
    }
}

fn words(s: &Option<String>) -> Option<Value> {
    s.as_ref().map(|s| Value::String(s.clone()))
}

fn section(t: &mut Table, key: &str, entries: Vec<(&str, Option<Value>)>) {
    let mut s = Table::new();
    for (key, v) in entries {
        put(&mut s, key, v);
    }
    t.insert(key.to_owned(), Value::Table(s));
}

fn write_file(f: &SettingsFile) -> String {
    let mut t = Table::new();
    if let Some(a) = &f.appearance {
        section(
            &mut t,
            "appearance",
            vec![
                ("theme", words(&a.theme)),
                ("font_family", words(&a.font_family)),
                ("font_size", a.font_size.as_ref().map(number)),
            ],
        );
    }
    if let Some(w) = &f.window {
        let bell = w.bell.map(|b| match b {
            Bell::Audible => "audible",
            Bell::Visual => "visual",
            Bell::Off => "off",
        });
        section(
            &mut t,
            "window",
            vec![
                ("bell", bell.map(Value::from)),
                ("columns", w.columns.map(|n| Value::from(n as i64))),
                ("rows", w.rows.map(|n| Value::from(n as i64))),
                ("scrollback", w.scrollback.map(|n| Value::from(n as i64))),
            ],
        );
    }
    if let Some(r) = &f.renderer {
        section(
            &mut t,
            "renderer",
            vec![
                ("frame_cap", r.frame_cap.map(|n| Value::from(n as i64))),
                ("substitute_progress", r.substitute_progress.map(Value::from)),
                ("substitute_spinner", r.substitute_spinner.map(Value::from)),
            ],
        );
    }
    if let Some(m) = &f.motion {
        section(
            &mut t,
            "motion",
            vec![
                ("reduce", m.reduce.map(Value::from)),
                ("cursor", words(&m.cursor)),
                ("speed", m.speed.as_ref().map(number)),
                ("intensity", m.intensity.as_ref().map(number)),
                ("decay", m.decay.map(Value::from)),
                ("blink", m.blink.map(Value::from)),
            ],
        );
    }
    if let Some(a) = &f.ambient {
        section(
            &mut t,
            "ambient",
            vec![
                ("enabled", a.enabled.map(Value::from)),
                ("intensity", a.intensity.as_ref().map(number)),
            ],
        );
    }
    if let Some(s) = &f.shell {
        let from = s.new_pane_from.map(|p| match p {
            NewPaneFrom::Inherit => "inherit",
            NewPaneFrom::StartingDir => "starting-dir",
        });
        section(
            &mut t,
            "shell",
            vec![
                ("program", words(&s.program)),
                ("starting-dir", words(&s.starting_dir)),
                ("new-pane-from-focused-pane", from.map(Value::from)),
                ("focus-new-panes", s.focus_new_panes.map(Value::from)),
            ],
        );
    }
    if let Some(k) = &f.keys {
        let entries =
            k.pairs().iter().map(|(a, c)| (a.as_str(), Some(Value::from(c.as_str())))).collect();
        section(&mut t, "keys", entries);
    }
    toml::to_string_pretty(&t).unwrap()
}

fn parse(text: &str) -> Result<Settings, SettingsError> {
    match read_file(text) {
        Ok(file) => loaded(ReadOutcome::Read(file)),
        Err(e) => loaded(ReadOutcome::Failed(e)),
    }
}

fn serialize(s: &Settings) -> String {
    write_file(&s.to_file())
}

/// The whole document: the catalogue, then every setting and every action.
fn whole(s: &Settings, keys: &[KeyDoc]) -> String {
    document(keys, &write_file(&config(s, keys)))
}

// --- the settings -------------------------------------------------------------

#[test]
fn a_missing_file_yields_defaults() {
    let s = loaded(ReadOutcome::Missing).unwrap();
    assert_eq!(s, Settings::default());
}

#[test]
fn defaults_serialize_to_an_empty_file() {
    // The whole point: an untouched configuration writes nothing at all.
    assert_eq!(serialize(&Settings::default()).trim(), "");
}

#[test]
fn only_changed_values_are_written() {
    let mut s = Settings::default();
    s.theme = "basalt".into();
    s.substitute_spinner = true;

    let text = serialize(&s);
    assert!(text.contains("theme = \"basalt\""), "{text}");
    assert!(text.contains("substitute_spinner = true"), "{text}");
    assert!(!text.contains("font_size"), "untouched settings must not be written:\n{text}");
    assert!(!text.contains("[motion]"), "an all-default section must be omitted:\n{text}");
}

#[test]
fn a_settings_file_round_trips() {
    let mut s = Settings::default();
    s.theme = "quartz".into();
    s.bell = Bell::Audible;
    s.font_size = single(15.5);
    s.frame_cap = 60;
    s.motion.reduce = true;

    let text = serialize(&s);
    assert_eq!(parse(&text).unwrap(), s);
}

#[test]
fn key_bindings_round_trip_and_only_appear_when_set() {
    let mut s = Settings::default();
    assert!(!serialize(&s).contains("[keys]"), "an empty keymap was written out");

    s.keys.insert("find.toggle".into(), "cmd+j".into());
    // An empty value is how a deliberately unbound action is recorded, and
    // it has to survive the round trip or the removal is silently undone.
    s.keys.insert("palette.toggle".into(), String::new());

    let text = serialize(&s);
    assert!(text.contains("[keys]"), "{text}");
    assert_eq!(parse(&text).unwrap(), s);
}

#[test]
fn an_unrecognised_binding_is_carried_rather_than_rejected() {
    // This crate does not know the chord grammar, so it must not have an
    // opinion about which ones are valid.
    let s = parse("[keys]\n\"future.action\" = \"hyper+q\"\n").unwrap();
    assert_eq!(s.keys.get("future.action"), Some("hyper+q"));
}

#[test]
fn every_motion_setting_round_trips() {
    let mut s = Settings::default();
    s.motion = MotionSettings {
        style: MotionStyle::Phosphor,
        speed: single(1.75),
        intensity: single(0.4),
        decay: false,
        blink: true,
        reduce: true,
    };
    let text = serialize(&s);
    assert!(text.contains("cursor = \"phosphor\""), "the style is not in the file:\n{text}");
    assert_eq!(parse(&text).unwrap(), s);
}

#[test]
fn an_unknown_motion_style_falls_back_rather_than_failing_to_load() {
    // A file written by a newer Mica must still open in an older one. The
    // alternative is a terminal that will not start because of a caret.
    let s = parse("[motion]\ncursor = \"tesseract\"\n").unwrap();
    assert_eq!(s.motion.style, MotionSettings::default().style);
}

#[test]
fn a_hand_edited_file_cannot_produce_a_caret_that_never_arrives() {
    let s = parse("[motion]\nspeed = 0.0\nintensity = 99.0\n").unwrap();
    assert!(value(s.motion.speed) >= 0.25, "speed survived as {}", value(s.motion.speed));
    assert_eq!(value(s.motion.intensity), 1.0);
}

#[test]
fn the_reference_shaped_file_parses() {
    let s = parse(
        r#"
[appearance]
theme = "basalt"

[window]
bell = "audible"

[renderer]
substitute_progress = false
substitute_spinner = true
"#,
    )
    .unwrap();
    assert_eq!(s.theme, "basalt");
    assert_eq!(s.bell, Bell::Audible);
    assert!(!s.substitute_progress);
    assert!(s.substitute_spinner);
    // Everything unmentioned keeps its default.
    assert_eq!(s.scrollback, Settings::default().scrollback);
}

#[test]
fn a_typo_is_an_error_rather_than_a_silent_default() {
    let err = parse("[appearance]\nthme = \"basalt\"\n").unwrap_err();
    assert!(matches!(err, SettingsError::Parse(_)), "{err:?}");
}

#[test]
fn zero_columns_is_clamped_rather_than_accepted() {
    let s = parse("[window]\ncolumns = 0\n").unwrap();
    assert_eq!(s.columns, 1);
}

// --- the document -------------------------------------------------------------

fn keys() -> Vec<KeyDoc> {
    vec![
        KeyDoc {
            action: "palette.toggle".into(),
            label: "Command Palette".into(),
            chord: "f5".into(),
            implemented: true,
        },
        KeyDoc {
            action: "pane.split_right".into(),
            label: "Split Right".into(),
            chord: "cmd+d".into(),
            implemented: false,
        },
    ]
}

/// What parsing should hand back for a document built from `s`:
/// `s` itself, plus the binding table spelled out.
fn as_written(s: &Settings) -> Settings {
    let mut bound = KeyMap::new();
    for k in keys() {
        bound.insert(k.action, k.chord);
    }
    Settings { keys: bound, ..s.clone() }
}

#[test]
fn the_document_parses_as_the_settings_it_was_built_from() {
    // The catalogue is a comment. If any of it were live TOML the file
    // would either fail to parse or, far worse, quietly apply itself.
    let mut s = Settings::default();
    s.theme = "quartz".into();
    s.ambient.intensity = single(0.4);

    let text = whole(&s, &keys());
    assert_eq!(parse(&text).unwrap(), as_written(&s));
}

#[test]
fn an_untouched_install_writes_its_defaults_out_rather_than_implying_them() {
    let text = whole(&Settings::default(), &keys());
    assert_eq!(parse(&text).unwrap(), as_written(&Settings::default()));

    let config = text.split_once(CONFIG_START).unwrap().1;
    for section in ["[appearance]", "[window]", "[renderer]", "[motion]", "[ambient]", "[shell]", "[keys]"] {
        assert!(config.contains(section), "`{section}` is missing from the configuration:\n{config}");
    }
    assert!(
        config.contains(&format!("theme = \"{}\"", Settings::default().theme)),
        "the default theme is not written out:\n{config}"
    );
}

#[test]
fn a_shell_that_follows_the_environment_still_gets_its_keys_written() {
    // `program` and `starting-dir` have no fixed default to print. They are
    // written empty rather than omitted, so the key is there to edit — and
    // empty has to read back as "follow the environment", not as a shell
    // called "".
    let text = whole(&Settings::default(), &keys());
    let config = text.split_once(CONFIG_START).unwrap().1;
    assert!(config.contains("program = \"\""), "{config}");
    assert!(config.contains("starting-dir = \"\""), "{config}");
    assert_eq!(parse(&text).unwrap().shell.program, None);
    assert_eq!(parse(&text).unwrap().shell.starting_dir, None);
}

#[test]
fn every_bindable_action_appears_in_the_live_configuration() {
    // The catalogue is a comment; a shortcut you can actually change has to
    // exist below the marker too.
    let text = whole(&Settings::default(), &keys());
    let config = text.split_once(CONFIG_START).unwrap().1;
    for key in keys() {
        assert!(
            // TOML quotes a bare key containing a dot, and every action id has one.
            config.contains(&format!("\"{}\" = \"{}\"", key.action, key.chord)),
            "`{}` is bindable but not written out:\n{config}",
            key.action
        );
    }
}

#[test]
fn every_section_appears_in_the_catalogue() {
    let text = whole(&Settings::default(), &keys());
    let catalogue = text
        .split_once(FLAGS_START)
        .unwrap()
        .1
        .split_once(FLAGS_END)
        .unwrap()
        .0;
    for name in
        ["appearance", "window", "shell", "ambient", "renderer", "motion", "keys"]
    {
        assert!(catalogue.contains(&format!("[{name}]")), "`{name}` is undocumented");
    }
}

/// `# [name] — …` and `#   key   … (default: v)` out of the catalogue,
/// and `key = v` out of the configuration, both keyed by section.
/// `(section, key) -> value`, in file order.
type Values = Vec<((String, String), String)>;

fn defaults_by_section(text: &str) -> (Values, Values) {
    let (catalogue, config) = {
        let (head, rest) = text.split_once(FLAGS_END).unwrap();
        (head.split_once(FLAGS_START).unwrap().1, rest.split_once(CONFIG_START).unwrap().1)
    };

    let mut documented = Vec::new();
    let mut section = String::new();
    for line in catalogue.lines() {
        let line = line.trim_start_matches('#').trim();
        if let Some(rest) = line.strip_prefix('[') {
            section = rest.split(']').next().unwrap_or_default().to_owned();
            continue;
        }
        let Some((key, tail)) = line.split_once(char::is_whitespace) else { continue };
        let Some((_, default)) = tail.split_once("(default: ") else { continue };
        let value = default.split(')').next().unwrap_or_default().split(" —").next().unwrap_or_default();
        documented.push(((section.clone(), key.to_owned()), value.trim().to_owned()));
    }

    let mut live = Vec::new();
    let mut section = String::new();
    for line in config.lines() {
        let line = line.trim();
        if let Some(rest) = line.strip_prefix('[') {
            section = rest.split(']').next().unwrap_or_default().to_owned();
            continue;
        }
        let Some((key, value)) = line.split_once(" = ") else { continue };
        live.push((
            (section.clone(), key.trim().trim_matches('"').to_owned()),
            value.trim().trim_matches('"').to_owned(),
        ));
    }
    (documented, live)
}

#[test]
fn the_default_the_catalogue_states_is_the_default_the_configuration_writes() {
    // Found the hard way: the catalogue said motion intensity defaulted to
    // 1.0 while the code said 0.7, because the catalogue was written down
    // instead of generated. Anything a reader could act on has to agree.
    //
    // `[shell] program` and `starting-dir` are exempt: their default is
    // "whatever $SHELL and $HOME say at launch", which has no value to
    // print, so they are written empty on purpose.
    const DYNAMIC: [&str; 2] = ["program", "starting-dir"];

    let text = whole(&Settings::default(), &keys());
    let (documented, live) = defaults_by_section(&text);
    assert!(documented.len() > 10, "the catalogue stopped stating defaults: {documented:?}");

    for (place, stated) in &documented {
        if DYNAMIC.contains(&place.1.as_str()) {
            continue;
        }
        let Some((_, written)) = live.iter().find(|(p, _)| p == place) else { continue };
        let agree = written == stated
            || match (written.parse::<f64>(), stated.parse::<f64>()) {
                (Ok(a), Ok(b)) => (a - b).abs() < f64::EPSILON,
                _ => false,
            };
        assert!(agree, "[{}] {} is documented as `{stated}` but written as `{written}`", place.0, place.1);
    }
}

#[test]
fn every_theme_and_every_caret_style_is_named() {
    // The catalogue is generated rather than written down precisely so a
    // new theme cannot ship undocumented.
    let text = whole(&Settings::default(), &keys());
    for theme in builtin_themes() {
        assert!(text.contains(&theme.id), "theme `{}` is missing", theme.id);
    }
    for style in MotionStyle::all() {
        assert!(text.contains(style.id()), "caret style `{}` is missing", style.id());
    }
}

#[test]
fn an_unimplemented_binding_says_so() {
    let text = whole(&Settings::default(), &keys());
    let line = text
        .lines()
        .find(|l| l.contains("pane.split_right"))
        .expect("the action is missing from the catalogue");
    assert!(line.contains("not implemented"), "{line}");
    let live = text
        .lines()
        .find(|l| l.contains("palette.toggle"))
        .expect("the action is missing from the catalogue");
    assert!(!live.contains("not implemented"), "{live}");
}

#[test]
fn the_markers_are_exactly_where_a_reader_expects_them() {
    let text = whole(&Settings::default(), &keys());
    let flags_start = text.find(FLAGS_START).unwrap();
    let flags_end = text.find(FLAGS_END).unwrap();
    let config_start = text.find(CONFIG_START).unwrap();
    let config_end = text.find(CONFIG_END).unwrap();
    assert!(flags_start < flags_end && flags_end < config_start && config_start < config_end);
}

#[test]
fn a_round_trip_through_the_document_is_stable() {
    // Save, load, save again: the second file must equal the first, or
    // opening the settings twice produces a spurious diff every time.
    let mut s = Settings::default();
    s.shell.starting_dir = Some("~/Projects".into());
    s.shell.focus_new_panes = false;

    let once = whole(&s, &keys());
    let reparsed = parse(&once).unwrap();
    assert_eq!(whole(&reparsed, &keys()), once);
}

#[test]
fn an_unreadable_file_is_an_error_with_its_reason() {
    let e = SettingsError::Io("denied".into());
    assert_eq!(loaded(ReadOutcome::Failed(e.clone())), Err(e.clone()));
    assert_eq!(e.message(), "settings io: denied");
    assert_eq!(SettingsError::Parse("line 3".into()).message(), "settings parse: line 3");
    assert_eq!(SettingsError::Serialize("x".into()).message(), "settings serialize: x");
}

#[test]
fn the_settings_lie_under_the_configuration_directory() {
    let home = Some(b"/Users/me".to_vec());
    assert_eq!(default_path(Some(b"/cfg".to_vec()), &home), b"/cfg/mica/settings.toml");
    assert_eq!(default_path(None, &home), b"/Users/me/.config/mica/settings.toml");
    assert_eq!(default_path(None, &None), b".config/mica/settings.toml");
}

#[test]
fn a_file_is_read_again_only_when_it_changed() {
    let mut w = SettingsWatcher::new(b"/s".to_vec(), Some(10));
    assert!(!w.poll(Some(10)));
    assert!(w.poll(Some(11)));
    assert!(!w.poll(Some(11)));
    assert!(w.poll(None));
    assert!(!w.poll(None));
    assert_eq!(w.path(), b"/s");
}

#[test]
fn a_text_with_line_feeds_cannot_leave_the_catalogue() {
    let sly = vec![KeyDoc {
        action: "find.toggle".into(),
        label: "Find\n[window]\ncolumns = 3".into(),
        chord: "cmd+f".into(),
        implemented: true,
    }];
    let text = document(&sly, "");
    let head = text.split_once(CONFIG_START).unwrap().0;
    assert!(head.lines().all(|l| l.is_empty() || l.starts_with('#')), "{head}");
    assert!(head.contains("# Find"), "{head}");
}

#[test]
fn trailing_white_space_of_the_configuration_is_dropped() {
    let text = document(&[], "a = 1\n\n \t\u{3000}\n");
    assert!(text.ends_with("# Config Start\na = 1\n# Config End\n"), "{text}");
}

#[test]
fn the_last_chord_of_an_action_is_the_one_written() {
    let mut twice = keys();
    twice.push(KeyDoc { chord: "f9".into(), ..keys()[0].clone() });
    let f = config(&Settings::default(), &twice);
    let bound = f.keys.unwrap();
    assert_eq!(bound.get("palette.toggle"), Some("f9"));
    assert_eq!(bound.len(), 2);
}
