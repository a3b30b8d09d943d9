use mica::osc::{parse_osc133, parse_osc7, OscSniffer};
use mica::semantic::{reading, BlockStatus, BlockTracker, Clock, SemanticEvent, SystemClock};
use std::sync::atomic::{AtomicU64, Ordering};
use std::sync::Arc;
use std::time::{Duration, UNIX_EPOCH};

#[derive(Default)]
struct FakeClock(Arc<AtomicU64>);

impl Clock for FakeClock {
    fn now_ms(&self) -> u64 {
        self.0.load(Ordering::SeqCst)
    }
}

fn tracker() -> (BlockTracker, Arc<AtomicU64>) {
    let t = Arc::new(AtomicU64::new(0));
    (BlockTracker::with_clock(64, Box::new(FakeClock(t.clone()))), t)
}

#[test]
fn parses_the_full_osc133_set() {
    assert_eq!(parse_osc133("A"), Some(SemanticEvent::PromptStart));
    assert_eq!(parse_osc133("B"), Some(SemanticEvent::CommandStart));
    assert_eq!(parse_osc133("C"), Some(SemanticEvent::OutputStart { command: None }));
    assert_eq!(parse_osc133("D;0"), Some(SemanticEvent::CommandDone { exit: Some(0) }));
    assert_eq!(parse_osc133("D;127"), Some(SemanticEvent::CommandDone { exit: Some(127) }));
    assert_eq!(parse_osc133("D"), Some(SemanticEvent::CommandDone { exit: None }));
}

#[test]
fn ignores_an_unknown_osc133_kind_rather_than_guessing() {
    assert_eq!(parse_osc133("Z;1"), None);
}

#[test]
fn extracts_the_command_when_the_shell_bothers_to_send_it() {
    assert_eq!(
        parse_osc133("C;cmd=cargo build"),
        Some(SemanticEvent::OutputStart { command: Some("cargo build".into()) })
    );
}

#[test]
fn parses_osc7_and_decodes_percent_escapes() {
    assert_eq!(
        parse_osc7("file://host/Users/me/my%20code"),
        Some(SemanticEvent::Cwd("/Users/me/my code".into()))
    );
}

#[test]
fn a_successful_command_yields_one_succeeded_block() {
    let (mut t, clock) = tracker();
    t.apply(SemanticEvent::PromptStart, 10);
    t.apply(SemanticEvent::CommandStart, 10);
    clock.store(1_000, Ordering::SeqCst);
    t.apply(SemanticEvent::OutputStart { command: Some("true".into()) }, 11);
    clock.store(1_042, Ordering::SeqCst);
    t.apply(SemanticEvent::CommandDone { exit: Some(0) }, 12);

    assert_eq!(t.blocks().len(), 1);
    let b = &t.blocks()[0];
    assert_eq!(b.status, BlockStatus::Succeeded);
    assert_eq!(b.command.as_deref(), Some("true"));
    assert_eq!(b.duration_ms, Some(42));
}

#[test]
fn a_failing_command_records_its_exit_code() {
    let (mut t, clock) = tracker();
    t.apply(SemanticEvent::PromptStart, 0);
    clock.store(5, Ordering::SeqCst);
    t.apply(SemanticEvent::OutputStart { command: Some("false".into()) }, 1);
    clock.store(9, Ordering::SeqCst);
    t.apply(SemanticEvent::CommandDone { exit: Some(1) }, 2);

    let b = &t.blocks()[0];
    assert_eq!(b.status, BlockStatus::Failed(1));
    assert!(b.status.is_failure());
    assert_eq!(b.duration_ms, Some(4));
}

#[test]
fn an_interrupted_block_is_closed_when_the_next_prompt_arrives() {
    let (mut t, _) = tracker();
    t.apply(SemanticEvent::PromptStart, 0);
    t.apply(SemanticEvent::OutputStart { command: Some("sleep 100".into()) }, 1);
    // Ctrl-C: the shell reprompts without ever sending D.
    t.apply(SemanticEvent::PromptStart, 2);

    assert_eq!(t.blocks().len(), 2);
    assert_eq!(t.blocks()[0].status, BlockStatus::Unknown);
    assert_eq!(t.blocks()[0].end_row, Some(2));
}

#[test]
fn cwd_attaches_to_the_block_being_prompted() {
    let (mut t, _) = tracker();
    t.apply(SemanticEvent::Cwd("/tmp".into()), 0);
    t.apply(SemanticEvent::PromptStart, 1);
    assert_eq!(t.blocks()[0].cwd.as_deref(), Some("/tmp"));
    assert_eq!(t.cwd(), Some("/tmp"));
}

#[test]
fn block_history_is_bounded() {
    let mut t = BlockTracker::with_clock(3, Box::new(SystemClock));
    for row in 0..10 {
        t.apply(SemanticEvent::PromptStart, row);
    }
    assert_eq!(t.blocks().len(), 3);
    // The survivors are the most recent three.
    assert_eq!(t.blocks()[0].start_row, 7);
}

fn sniff(input: &[u8]) -> Vec<SemanticEvent> {
    let mut s = OscSniffer::new();
    s.feed(input);
    s.drain()
}

#[test]
fn sniffer_finds_osc133_terminated_by_bel() {
    assert_eq!(sniff(b"\x1b]133;A\x07"), vec![SemanticEvent::PromptStart]);
}

#[test]
fn sniffer_finds_osc133_terminated_by_string_terminator() {
    assert_eq!(
        sniff(b"\x1b]133;D;1\x1b\\"),
        vec![SemanticEvent::CommandDone { exit: Some(1) }]
    );
}

#[test]
fn sniffer_survives_a_sequence_split_across_two_reads() {
    let mut s = OscSniffer::new();
    s.feed(b"\x1b]133;D");
    assert!(s.is_empty(), "an incomplete sequence must not fire early");
    s.feed(b";0\x07");
    assert_eq!(s.drain(), vec![SemanticEvent::CommandDone { exit: Some(0) }]);
}

#[test]
fn sniffer_ignores_ordinary_text_and_csi_sequences() {
    assert_eq!(sniff(b"hello \x1b[31mworld\x1b[0m\n"), vec![]);
}

#[test]
fn sniffer_reports_a_bare_bell_but_not_an_osc_terminator() {
    assert_eq!(sniff(b"\x07"), vec![SemanticEvent::Bell]);
    assert_eq!(sniff(b"\x1b]0;title\x07"), vec![SemanticEvent::Title("title".into())]);
}

#[test]
fn sniffer_parses_both_notification_forms() {
    assert_eq!(
        sniff(b"\x1b]9;build finished\x07"),
        vec![SemanticEvent::Notification { title: None, body: "build finished".into() }]
    );
    assert_eq!(
        sniff(b"\x1b]777;notify;Build;done\x07"),
        vec![SemanticEvent::Notification {
            title: Some("Build".into()),
            body: "done".into()
        }]
    );
}

#[test]
fn sniffer_drops_an_oversized_payload_without_growing_forever() {
    let mut s = OscSniffer::new();
    s.feed(b"\x1b]133;");
    s.feed(&vec![b'x'; 256 * 1024]);
    s.feed(b"\x07");
    assert!(s.drain().is_empty());
}

#[test]
fn a_title_past_the_limit_is_no_title() {
    let mut s = OscSniffer::new();
    s.feed(b"\x1b]0;");
    s.feed(&[b'x'; 70000]);
    s.feed(b"\x07");
    assert_eq!(s.drain(), vec![]);
    // What comes after it is read as ever.
    s.feed(b"\x1b]133;A\x07");
    assert_eq!(s.drain(), vec![SemanticEvent::PromptStart]);
}

#[test]
fn a_payload_of_just_the_limit_is_kept() {
    let name = "x".repeat(64 * 1024 - "0;".len());
    let mut s = OscSniffer::new();
    s.feed(format!("\x1b]0;{name}\x07").as_bytes());
    assert_eq!(s.drain(), vec![SemanticEvent::Title(name.clone())]);
    s.feed(format!("\x1b]0;{name}x\x07").as_bytes());
    assert_eq!(s.drain(), vec![]);
}

#[test]
fn blocks_stay_in_order_whatever_the_shell_says() {
    let mut t = BlockTracker::with_clock(3, Box::new(FakeClock::default()));
    let said = [
        SemanticEvent::PromptStart,
        SemanticEvent::PromptStart,
        SemanticEvent::CommandStart,
        SemanticEvent::OutputStart { command: None },
        SemanticEvent::PromptStart,
        SemanticEvent::CommandDone { exit: Some(1) },
        SemanticEvent::OutputStart { command: None },
        SemanticEvent::CommandDone { exit: Some(0) },
        SemanticEvent::CommandDone { exit: None },
        SemanticEvent::PromptStart,
        SemanticEvent::PromptStart,
    ];
    for (row, event) in said.into_iter().enumerate() {
        t.apply(event, row as u64);
        let blocks = t.blocks();
        assert!(blocks.len() <= 3);
        assert!(blocks.windows(2).all(|w| w[0].id < w[1].id));
        for b in blocks.iter().rev().skip(1) {
            assert!(!matches!(b.status, BlockStatus::Running | BlockStatus::Prompting));
            assert!(b.end_row.is_some());
        }
    }
    assert_eq!(t.blocks()[1].end_row, Some(10));
    assert_eq!(t.blocks()[1].status, BlockStatus::Unknown);
}

#[test]
fn sniffer_does_not_treat_osc52_as_its_own_business() {
    // The backend's clipboard channel owns this; handling it twice would
    // write the pasteboard twice.
    assert_eq!(sniff(b"\x1b]52;c;aGk=\x07"), vec![]);
}

#[test]
fn navigation_finds_the_neighbouring_blocks() {
    let (mut t, _) = tracker();
    for row in [0u64, 10, 20] {
        t.apply(SemanticEvent::PromptStart, row);
    }
    assert_eq!(t.next_block_after(0).map(|b| b.start_row), Some(10));
    assert_eq!(t.previous_block_before(20).map(|b| b.start_row), Some(10));
    assert!(t.next_block_after(20).is_none());
}

#[test]
fn a_clock_reads_whole_milliseconds() {
    assert_eq!(reading(Ok(Duration::from_micros(1_234_999))), 1234);
    let early = UNIX_EPOCH.duration_since(UNIX_EPOCH + Duration::from_secs(1));
    assert_eq!(reading(early), 0);
    assert!(SystemClock.now_ms() > 1_600_000_000_000);
}
