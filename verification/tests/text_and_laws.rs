use mica::cell::{Cell, CellContent, CellFlags, Color};
use mica::keymap::KeyMap;
use mica::material::{builtin, Fraction, Material, Rgb, Role, ThemeError};
use mica::osc::{parse_osc, percent_decode, OscSniffer};
use mica::overlay::TextField;
use mica::palette::{default_actions, Palette};
use mica::raster::{scalar_path, ScalarPath};
use mica::search::{fuzzy_match, rank, Search};
use mica::semantic::{BlockStatus, BlockTracker, SemanticEvent};
use mica::sidetable::{Extras, SideTables};
use mica::text::{chars_of, parse_i32, push_decimal};

// --- text ----------------------------------------------------------------------

#[test]
fn percent_escapes_that_are_no_text_become_replacement_characters() {
    assert_eq!(percent_decode("a%20b"), "a b");
    assert_eq!(percent_decode("caf%C3%A9"), "café");
    assert_eq!(percent_decode("x%FFy"), "x\u{FFFD}y");
    assert_eq!(percent_decode("100%"), "100%", "an escape that is cut short stays");
    assert_eq!(percent_decode("%zz"), "%zz");
}

#[test]
fn a_payload_that_is_no_text_is_dropped() {
    let mut sniffer = OscSniffer::new();
    sniffer.feed(b"\x1b]9;caf\xff\x07");
    assert!(sniffer.is_empty());
    sniffer.feed("\u{1b}]9;café\u{7}".as_bytes());
    assert_eq!(
        sniffer.drain(),
        vec![SemanticEvent::Notification { title: None, body: "café".to_owned() }]
    );
}

#[test]
fn searching_folds_case_beyond_ascii() {
    let mut s = Search::new();
    s.run("straße", &[(0, "Die STRAßE, die Straße")]);
    assert_eq!(s.len(), 2);
    s.run("äpfel", &[(0, "ÄPFEL Äpfel äpfel")]);
    assert_eq!(s.len(), 3);
    s.run("Äpfel", &[(0, "ÄPFEL Äpfel äpfel")]);
    assert_eq!(s.len(), 1, "a capital makes the query exact");
}

#[test]
fn white_space_beyond_ascii_draws_nothing() {
    assert_eq!(scalar_path('\u{3000}'), ScalarPath::Blank);
    assert_eq!(scalar_path('\u{a0}'), ScalarPath::Blank);
    assert_eq!(scalar_path('\u{7f}'), ScalarPath::Blank);
    assert_eq!(scalar_path('a'), ScalarPath::Font);
    assert_eq!(scalar_path('─'), ScalarPath::Synthesised);
}

#[test]
fn an_error_quotes_what_it_complains_about() {
    let e = ThemeError::Unknown("a\"b\n".to_owned());
    assert_eq!(e.message(), "no such theme: \"a\\\"b\\n\"");
}

#[test]
fn decimal_text_reads_back() {
    for n in [0usize, 7, 10, 99, 100, 2147483647] {
        let mut out = Vec::new();
        push_decimal(n, &mut out);
        assert_eq!(parse_i32(&out, 0, out.len()), Some(n as i32));
    }
    let text = chars_of("-17");
    assert_eq!(parse_i32(&text, 0, 3), Some(-17));
    let over = chars_of("2147483648");
    assert_eq!(parse_i32(&over, 0, 10), None);
}

// --- the sniffer ---------------------------------------------------------------

#[test]
fn sniffing_ignores_where_the_bytes_are_cut() {
    let stream = b"plain\x1b]133;A\x07\x1b]7;file://h/tmp\x1b\\\x07\x1b]9;done\x07";
    let mut whole = OscSniffer::new();
    whole.feed(stream);
    let all = whole.drain();
    assert_eq!(all.len(), 4);
    for cut in 0..stream.len() {
        let mut halves = OscSniffer::new();
        halves.feed(&stream[..cut]);
        halves.feed(&stream[cut..]);
        assert_eq!(halves.drain(), all, "cut at {cut}");
    }
}

#[test]
fn every_command_of_the_system_is_told_apart() {
    assert_eq!(parse_osc("133;A"), Some(SemanticEvent::PromptStart));
    assert_eq!(
        parse_osc("133;D;42"),
        Some(SemanticEvent::CommandDone { exit: Some(42) })
    );
    assert_eq!(parse_osc("7;file://host/a%20b"), Some(SemanticEvent::Cwd("/a b".to_owned())));
    assert_eq!(
        parse_osc("777;notify;Title;Body"),
        Some(SemanticEvent::Notification {
            title: Some("Title".to_owned()),
            body: "Body".to_owned()
        })
    );
    assert_eq!(parse_osc("52;c;aGk="), None);
}

// --- blocks --------------------------------------------------------------------

#[test]
fn a_prompt_leaves_one_open_block() {
    let mut t = BlockTracker::new(8);
    for row in 0..3 {
        t.apply_at(SemanticEvent::PromptStart, row, 10 * row);
        t.apply_at(SemanticEvent::OutputStart { command: None }, row, 10 * row + 1);
    }
    let open = t
        .blocks()
        .iter()
        .filter(|b| b.status == BlockStatus::Running || b.status == BlockStatus::Prompting)
        .count();
    assert_eq!(open, 1);
    assert_eq!(t.blocks().len(), 3);
}

#[test]
fn history_forgets_its_oldest_block() {
    let mut t = BlockTracker::new(2);
    for row in 0..5 {
        t.apply_at(SemanticEvent::PromptStart, row, row);
    }
    let rows: Vec<u64> = t.blocks().iter().map(|b| b.start_row).collect();
    assert_eq!(rows, vec![3, 4]);
}

#[test]
fn a_command_is_recorded_once() {
    let mut t = BlockTracker::new(4);
    t.set_current_command("nothing runs".to_owned());
    assert!(t.blocks().is_empty());
    t.apply_at(SemanticEvent::PromptStart, 0, 0);
    t.set_current_command("make".to_owned());
    t.set_current_command("make again".to_owned());
    assert_eq!(t.blocks()[0].command.as_deref(), Some("make"));
    t.apply_at(SemanticEvent::OutputStart { command: Some("cargo".to_owned()) }, 1, 100);
    t.apply_at(SemanticEvent::CommandDone { exit: None }, 2, 90);
    assert_eq!(t.blocks()[0].command.as_deref(), Some("cargo"), "the shell knows better");
    assert_eq!(t.blocks()[0].duration_ms, Some(0), "a clock that went back");
    assert_eq!(t.blocks()[0].status, BlockStatus::Unknown);
}

// --- searching and ranking -----------------------------------------------------

#[test]
fn the_matched_letters_are_in_order_and_scored_by_where_they_stand() {
    let m = fuzzy_match("nt", "new tab").unwrap();
    assert_eq!(m.positions, vec![0, 4], "the starts of words");
    let joined = fuzzy_match("ta", "new tab").unwrap();
    assert_eq!(joined.positions, vec![4, 5]);
    // One for each letter, eight for the start of a word, four for standing
    // next to the last one.
    assert_eq!(m.score, 18);
    assert_eq!(joined.score, 14);
    assert!(fuzzy_match("tn", "new tab").is_none());
}

#[test]
fn what_does_not_match_is_left_out_and_equals_stay_as_given() {
    let keys = ["close tab", "new tab", "quit", "next tab"];
    let r: Vec<usize> = rank("nt", &keys).iter().map(|(i, _)| *i).collect();
    assert_eq!(r, vec![1, 3]);
    let all: Vec<usize> = rank("", &keys).iter().map(|(i, _)| *i).collect();
    assert_eq!(all, vec![0, 1, 2, 3], "an empty query keeps everything");
}

#[test]
fn next_and_previous_undo_each_other() {
    let mut s = Search::new();
    s.run("a", &[(0, "a a a"), (1, "a")]);
    for _ in 0..s.len() {
        let at = s.position();
        s.next();
        s.previous();
        assert_eq!(s.position(), at);
        s.next();
    }
}

// --- editing -------------------------------------------------------------------

#[test]
fn backspace_undoes_typing() {
    let mut f = TextField::new();
    f.insert_str("héllo");
    f.move_left();
    f.move_left();
    let (text, caret) = (f.text().to_owned(), f.caret());
    f.insert('ü');
    assert_eq!(f.text(), "hélülo");
    assert!(f.backspace());
    assert_eq!((f.text().to_owned(), f.caret()), (text, caret));
}

#[test]
fn moving_down_and_up_comes_back() {
    let mut p = Palette::new(default_actions(&["slate".to_owned()]));
    p.open();
    for _ in 0..p.actions().len() + 2 {
        let at = p.selected().map(|a| a.id.clone());
        p.select_next();
        p.select_previous();
        assert_eq!(p.selected().map(|a| a.id.clone()), at);
        p.select_next();
    }
}

#[test]
fn new_themes_replace_the_old_ones() {
    let mut p = Palette::new(default_actions(&["slate".to_owned()]));
    let before = p.actions().len();
    p.set_theme_ids(&["basalt".to_owned(), "quartz".to_owned()]);
    assert_eq!(p.actions().len(), before + 1);
    assert!(p.actions().iter().any(|a| a.id == "theme.basalt"));
    assert!(!p.actions().iter().any(|a| a.id == "theme.slate"));
}

#[test]
fn an_action_has_one_chord() {
    let mut k = KeyMap::new();
    assert!(k.is_empty());
    k.insert("tab.new".to_owned(), "cmd+t".to_owned());
    k.insert("app.quit".to_owned(), "cmd+q".to_owned());
    k.insert("tab.new".to_owned(), "cmd+n".to_owned());
    assert_eq!(k.len(), 2);
    assert_eq!(k.get("tab.new"), Some("cmd+n"));
    assert_eq!(k.get("tab.close"), None);
    let names: Vec<&str> = k.pairs().iter().map(|(a, _)| a.as_str()).collect();
    assert_eq!(names, vec!["app.quit", "tab.new"], "in the order of their names");
}

// --- colours and cells ---------------------------------------------------------

#[test]
fn colours_survive_their_text() {
    for c in [Rgb::new(0, 0, 0), Rgb::new(255, 128, 7), Rgb::new(18, 52, 86)] {
        assert_eq!(Rgb::parse(&c.to_hex()), Some(c));
    }
    assert_eq!(Rgb::new(18, 52, 86).to_hex(), "#123456");
    assert_eq!(Rgb::parse("#é23"), None);
    assert_eq!(Rgb::parse("#+1+2+3"), None, "a sign is no digit");
    assert_eq!(Rgb::parse("#+12"), None);
    assert_eq!(Rgb::parse("#0A0b0C"), Some(Rgb { r: 10, g: 11, b: 12 }));
}

#[test]
fn mixing_ends_exactly() {
    let (a, b) = (Rgb::new(10, 200, 30), Rgb::new(250, 0, 31));
    assert_eq!(a.lerp(b, Fraction::new(0, 1)), a);
    assert_eq!(a.lerp(b, Fraction::one()), b);
    assert_eq!(a.lerp(b, Fraction::new(1, 2)), Rgb::new(130, 100, 31));
}

#[test]
fn the_sixteen_colours_are_roles() {
    let m = Material::from_theme(&builtin("slate").unwrap()).unwrap();
    assert_eq!(m.palette(1), m.role(Role::Error));
    assert_eq!(m.palette(2), m.role(Role::Success));
    assert_eq!(m.resolve(Color::palette(1), Role::Foreground), m.role(Role::Error));
    assert_eq!(m.palette(196), Rgb::new(255, 0, 0), "the cube is no one's");
}

#[test]
fn a_flag_that_is_set_is_contained() {
    let mut f = CellFlags::empty();
    f.set(CellFlags::bold(), true);
    f.set(CellFlags::italic(), true);
    assert!(f.contains(CellFlags::bold()) && f.contains(CellFlags::italic()));
    f.set(CellFlags::bold(), false);
    assert!(!f.intersects(CellFlags::bold()));
    assert!(f.contains(CellFlags::italic()), "the others stay");
    assert_eq!(CellFlags::from_bits_truncate(f.bits()), f);
    assert_eq!(f.union(CellFlags::dim()).difference(CellFlags::italic()), CellFlags::dim());
}

#[test]
fn packed_colours_and_contents_come_apart_again() {
    assert_eq!(Color::palette(200).as_palette(), Some(200));
    assert_eq!(Color::palette(200).as_rgb(), None);
    assert_eq!(Color::rgb(1, 2, 3).as_rgb(), Some((1, 2, 3)));
    assert!(Color::theme_default().is_default());
    assert_eq!(CellContent::scalar('é').as_scalar(), Some('é'));
    assert_eq!(CellContent::scalar('é').as_cluster(), None);
    assert_eq!(CellContent::cluster(9).as_cluster(), Some(9));
    assert!(Cell::empty().is_blank());
}

#[test]
fn interning_the_same_again_changes_nothing() {
    let mut t = SideTables::new();
    let a = t.hyperlinks.intern("https://one");
    let b = t.hyperlinks.intern("https://two");
    assert_eq!(t.hyperlinks.intern("https://one"), a);
    assert_eq!(t.hyperlinks.get(b), Some("https://two"));
    let e = Extras { underline_color: Some(Color::rgb(1, 2, 3)), hyperlink: Some(b) };
    let id = t.extras.intern(e);
    assert_eq!(t.extras.intern(e), id);
    assert_eq!(t.extras.get(id), Some(&e));
    assert!(t.allocated_bytes() > 0);
}
