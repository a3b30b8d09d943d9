use mica::backend::{Point, Selection, SelectionKind};
use mica::pty::{ExitStatus, PtyEvent};
use mica::semantic::BlockStatus;
use mica::session::{Session, SessionEvent};
use mica::settings::Settings;

fn session() -> Session {
    Session::new(&Settings::default(), 80, 24)
}

fn feed(s: &mut Session, bytes: &[u8]) {
    s.output(bytes);
    s.absorb_semantics();
}

fn output(bytes: &[u8]) -> PtyEvent {
    PtyEvent::Output(bytes.to_vec())
}

#[test]
fn osc133_markers_arriving_as_output_become_blocks() {
    let mut s = session();
    feed(&mut s, b"\x1b]133;A\x07$ false\r\n\x1b]133;C\x07");
    feed(&mut s, b"\x1b]133;D;1\x07");

    let blocks = s.blocks();
    assert_eq!(blocks.len(), 1);
    assert_eq!(blocks[0].status, BlockStatus::Failed(1));
}

#[test]
fn a_title_sequence_surfaces_as_a_session_event() {
    let mut s = session();
    feed(&mut s, b"\x1b]0;build\x07");
    assert!(s
        .drain_events()
        .iter()
        .any(|e| *e == SessionEvent::TitleChanged("build".into())));
}

#[test]
fn an_osc7_report_updates_the_working_directory() {
    let mut s = session();
    feed(&mut s, b"\x1b]7;file://host/tmp/work\x07");
    assert_eq!(s.cwd(), Some("/tmp/work"));
}

#[test]
fn a_fresh_session_has_no_damage_once_the_first_frame_is_drawn() {
    let mut s = session();
    s.clear_damage();
    assert!(!s.has_damage(), "an idle session must not ask for a frame");
}

#[test]
fn feeding_identical_content_twice_does_not_redirty() {
    let mut s = session();
    feed(&mut s, b"steady\r\n");
    s.clear_damage();
    // Rewriting the same row with the same bytes: the cursor moved and came
    // back, the pixels did not change.
    feed(&mut s, b"\x1b[1;1Hsteady");
    assert!(!s.has_damage(), "an unchanged repaint must not wake the renderer");
}

#[test]
fn pumping_nothing_does_nothing() {
    let mut s = session();
    s.clear_damage();
    let (received, replies) = s.pump(&vec![], || panic!("nobody ended"));
    assert!(!received);
    assert!(replies.is_empty());
    assert!(!s.has_damage());
    assert!(s.drain_events().is_empty());
}

#[test]
fn a_query_in_the_output_is_answered() {
    let mut s = session();
    let (received, replies) = s.pump(&vec![output(b"\x1b["), output(b"c")], || None);
    assert!(received);
    assert!(replies.starts_with(b"\x1b[?"), "{replies:?}");
    let (_, again) = s.pump(&vec![output(b"x")], || None);
    assert!(again.is_empty());
}

#[test]
fn every_event_of_the_child_reaches_the_window() {
    let mut s = session();
    s.pump(
        &vec![output(b"\x07\x1b]7;file://h/tmp\x07\x1b]777;notify;Build;done\x07\x1b]52;c;aGk=\x07")],
        || None,
    );
    let events = s.drain_events();
    assert!(events.contains(&SessionEvent::Bell));
    assert!(events.contains(&SessionEvent::CwdChanged("/tmp".into())));
    assert!(events.contains(&SessionEvent::ClipboardWrite("hi".into())));
    assert!(events.contains(&SessionEvent::Notification {
        title: Some("Build".into()),
        body: "done".into(),
    }));
    assert!(s.drain_events().is_empty());
}

#[test]
fn a_hangup_ends_the_session_once() {
    let mut s = session();
    let arrived = vec![output(b"bye\r\n"), PtyEvent::Hangup, output(b"never seen")];
    let (received, _) = s.pump(&arrived, || Some(ExitStatus::Exited(3)));
    assert!(received);
    assert!(s.has_exited());
    assert_eq!(s.drain_events(), vec![SessionEvent::Exited(Some(3))]);
    assert_eq!(s.line_text(0).as_deref().map(str::trim_end), Some("bye"));
    assert_eq!(s.line_text(1).as_deref().map(str::trim_end), Some(""));

    s.pump(&vec![PtyEvent::Hangup], || panic!("the status is known"));
    assert!(s.drain_events().is_empty(), "the end was told twice");
}

#[test]
fn a_child_that_a_signal_ended_has_no_code() {
    let mut s = session();
    s.pump(&vec![PtyEvent::Hangup], || Some(ExitStatus::Signaled(9)));
    assert_eq!(s.drain_events(), vec![SessionEvent::Exited(None)]);
    assert!(s.has_exited());
}

#[test]
fn a_status_that_cannot_be_had_leaves_the_session_open() {
    let mut s = session();
    s.pump(&vec![PtyEvent::Hangup], || None);
    assert_eq!(s.drain_events(), vec![SessionEvent::Exited(None)]);
    assert!(!s.has_exited());
}

#[test]
fn a_read_that_fails_is_told_before_the_end() {
    let mut s = session();
    s.pump(&vec![PtyEvent::Error("bad descriptor".into())], || Some(ExitStatus::Exited(0)));
    assert_eq!(
        s.drain_events(),
        vec![
            SessionEvent::Notification {
                title: Some("Terminal error".into()),
                body: "bad descriptor".into(),
            },
            SessionEvent::Exited(Some(0)),
        ]
    );
}

#[test]
fn typing_returns_to_the_live_end() {
    let mut s = session();
    for i in 0..100 {
        s.output(format!("line {i}\r\n").as_bytes());
    }
    let live = s.cursor();
    s.scroll(10);
    assert!(!s.cursor().visible || s.cursor().line != live.line, "the window did not move");
    s.pump(&vec![output(b"more\r\n")], || None);
    assert_ne!(s.cursor(), live, "output pulled a reader away");
    s.write_input();
    assert_eq!(s.cursor().line, live.line);
    // Nothing moves where the window is at the live end already.
    s.write_input();
    assert_eq!(s.cursor().line, live.line);
}

#[test]
fn a_new_size_is_passed_on_once() {
    let mut s = session();
    assert_eq!(s.resize(80, 24), None);
    assert_eq!(s.resize(100, 30), Some((100, 30)));
    assert_eq!(s.resize(100, 30), None);
    assert_eq!(s.resize(40, 0), Some((40, 1)));
    assert_eq!(s.dimensions(), (40, 1));
}

#[test]
fn blocks_know_their_rows_from_the_oldest_line() {
    let mut s = Session::new(&Settings::default(), 20, 4);
    for i in 0..10 {
        s.output(format!("{i}\r\n").as_bytes());
    }
    feed(&mut s, b"\x1b]133;A\x07");
    assert_eq!(s.blocks()[0].start_row, 10);
    s.block_tracker_mut().toggle_fold(1);
    assert!(s.blocks()[0].folded);
}

#[test]
fn a_selection_is_read_back_as_text() {
    let mut s = session();
    feed(&mut s, b"copy me");
    s.set_selection(Some(Selection {
        start: Point::new(0, 0),
        end: Point::new(0, 3),
        kind: SelectionKind::Simple,
    }));
    assert_eq!(s.selection_text().as_deref(), Some("copy"));
    assert!(s.selection().is_some());
    s.set_selection(None);
    assert_eq!(s.selection_text(), None);
    assert_eq!(s.line_bounds(), (0, 23));
    assert_eq!(s.side_tables().allocated_bytes(), 0);
    assert_eq!(s.dirty_rows().len(), 24);
}

#[test]
fn a_block_is_recorded_on_the_same_row_wherever_the_window_is() {
    let lines = b"0\r\n".repeat(40);
    let prompt = b"\x1b]133;A\x07";
    let mut live = session();
    feed(&mut live, &lines);
    feed(&mut live, prompt);
    let mut back = session();
    feed(&mut back, &lines);
    back.scroll(5);
    feed(&mut back, prompt);
    assert_eq!(live.blocks()[0].start_row, 40);
    assert_eq!(back.blocks()[0].start_row, 40);
}

#[test]
fn an_empty_read_wakes_nobody() {
    let mut s = session();
    feed(&mut s, b"hello\r\n");
    s.clear_damage();
    s.output(b"");
    assert!(!s.has_damage());
}
