//! Semantic prompts, and the command blocks built from them.
//!
//! A block is one command, its output and its exit status, tracked as a single
//! region with a measured duration. The shell says where the boundaries are:
//!
//! ```text
//! OSC 133 ; A          prompt start
//! OSC 133 ; B          command start (end of prompt, start of user input)
//! OSC 133 ; C          output start  (user pressed return)
//! OSC 133 ; D ; <exit> command done
//! OSC 7  ; file://…    working directory
//! ```

use vstd::prelude::*;
use std::time::{Duration, SystemTime, SystemTimeError, UNIX_EPOCH};

verus! {

/// What the terminal hands up. The terminal emits these, [`BlockTracker`] gives
/// them meaning.
#[derive(Debug, Clone, PartialEq, Eq)]
pub enum SemanticEvent {
    PromptStart,
    CommandStart,
    /// Output began. The shell may say which command runs; most do not.
    OutputStart { command: Option<String> },
    CommandDone { exit: Option<i32> },
    /// The child reporting its working directory.
    Cwd(String),
    Title(String),
    /// A notification to show outside the terminal.
    Notification { title: Option<String>, body: String },
    /// The child asking to write the system clipboard.
    ClipboardWrite(String),
    Bell,
}

/// [`SemanticEvent`] with its texts as character sequences.
pub enum EventView {
    PromptStart,
    CommandStart,
    OutputStart { command: Option<Seq<char>> },
    CommandDone { exit: Option<i32> },
    Cwd(Seq<char>),
    Title(Seq<char>),
    Notification { title: Option<Seq<char>>, body: Seq<char> },
    ClipboardWrite(Seq<char>),
    Bell,
}

/// The characters of an optional text.
pub open spec fn text_view(text: Option<String>) -> Option<Seq<char>> {
    match text {
        Some(s) => Some(s@),
        None => None,
    }
}

impl View for SemanticEvent {
    type V = EventView;

    open spec fn view(&self) -> EventView {
        match *self {
            SemanticEvent::PromptStart => EventView::PromptStart,
            SemanticEvent::CommandStart => EventView::CommandStart,
            SemanticEvent::OutputStart { command } => EventView::OutputStart {
                command: text_view(command),
            },
            SemanticEvent::CommandDone { exit } => EventView::CommandDone { exit },
            SemanticEvent::Cwd(path) => EventView::Cwd(path@),
            SemanticEvent::Title(title) => EventView::Title(title@),
            SemanticEvent::Notification { title, body } => EventView::Notification {
                title: text_view(title),
                body: body@,
            },
            SemanticEvent::ClipboardWrite(text) => EventView::ClipboardWrite(text@),
            SemanticEvent::Bell => EventView::Bell,
        }
    }
}

/// The views of a run of events.
pub open spec fn event_views(events: Seq<SemanticEvent>) -> Seq<EventView> {
    events.map_values(|e: SemanticEvent| e@)
}

#[derive(Debug, Clone, Copy, PartialEq, Eq, Structural)]
pub enum BlockStatus {
    /// Prompt is up, the user is typing.
    Prompting,
    /// The command is running.
    Running,
    Succeeded,
    /// Keeps a red gutter mark until cleared.
    Failed(i32),
    /// The command finished but the shell reported no status.
    Unknown,
}

impl BlockStatus {
    pub fn is_failure(self) -> (yes: bool)
        ensures
            yes == (self is Failed),
    {
        match self {
            BlockStatus::Failed(_) => true,
            _ => false,
        }
    }
}

/// One tracked command region. Rows are absolute: they do not move when the
/// viewport does.
#[derive(Debug, Clone, PartialEq, Eq)]
pub struct Block {
    pub id: u64,
    /// Where the prompt began.
    pub start_row: u64,
    /// Where output began, once it has.
    pub output_row: Option<u64>,
    /// The row after the last output line, once the block is done.
    pub end_row: Option<u64>,
    pub command: Option<String>,
    pub cwd: Option<String>,
    pub status: BlockStatus,
    pub started_ms: Option<u64>,
    pub duration_ms: Option<u64>,
    pub folded: bool,
}

/// [`Block`] with its texts as character sequences.
pub struct BlockView {
    pub id: u64,
    pub start_row: u64,
    pub output_row: Option<u64>,
    pub end_row: Option<u64>,
    pub command: Option<Seq<char>>,
    pub cwd: Option<Seq<char>>,
    pub status: BlockStatus,
    pub started_ms: Option<u64>,
    pub duration_ms: Option<u64>,
    pub folded: bool,
}

impl View for Block {
    type V = BlockView;

    open spec fn view(&self) -> BlockView {
        BlockView {
            id: self.id,
            start_row: self.start_row,
            output_row: self.output_row,
            end_row: self.end_row,
            command: text_view(self.command),
            cwd: text_view(self.cwd),
            status: self.status,
            started_ms: self.started_ms,
            duration_ms: self.duration_ms,
            folded: self.folded,
        }
    }
}

/// The views of a run of blocks.
pub open spec fn block_views(blocks: Seq<Block>) -> Seq<BlockView> {
    blocks.map_values(|b: Block| b@)
}

/// A block whose prompt has just appeared.
pub open spec fn fresh_block(id: u64, start_row: u64, cwd: Option<Seq<char>>) -> BlockView {
    BlockView {
        id,
        start_row,
        output_row: None,
        end_row: None,
        command: None,
        cwd,
        status: BlockStatus::Prompting,
        started_ms: None,
        duration_ms: None,
        folded: false,
    }
}

impl Block {
    fn new(id: u64, start_row: u64, cwd: Option<String>) -> (b: Block)
        ensures
            b@ == fresh_block(id, start_row, text_view(cwd)),
    {
        Block {
            id,
            start_row,
            output_row: None,
            end_row: None,
            command: None,
            cwd,
            status: BlockStatus::Prompting,
            started_ms: None,
            duration_ms: None,
            folded: false,
        }
    }
}

/// A wall clock in milliseconds.
pub trait Clock: Send + Sync {
    fn now_ms(&self) -> u64;
}

/// `std::time::SystemTime`, carried through.
#[verifier::external_type_specification]
#[verifier::external_body]
pub struct ExSystemTime(std::time::SystemTime);

/// `std::time::SystemTimeError`, carried through.
#[verifier::external_type_specification]
#[verifier::external_body]
pub struct ExSystemTimeError(std::time::SystemTimeError);

/// `SystemTime::now` reads the machine's clock.
pub assume_specification[ std::time::SystemTime::now ]() -> std::time::SystemTime
;

/// `SystemTime::duration_since`, from the start of 1970. It fails where the
/// machine's clock stands before that.
#[verifier::external_body]
fn since_epoch(now: SystemTime) -> Result<Duration, SystemTimeError> {
    now.duration_since(UNIX_EPOCH)
}

/// The whole milliseconds that `Duration::as_millis` counts.
pub uninterp spec fn millis(d: Duration) -> u128;

/// `Duration::as_millis`: the whole milliseconds of a duration.
#[verifier::external_body]
fn whole_millis(d: Duration) -> (n: u128)
    ensures
        n == millis(d),
{
    d.as_millis()
}

/// What a clock reads that long after the start of 1970. One that stands before
/// it reads 0.
pub fn reading(since: Result<Duration, SystemTimeError>) -> (ms: u64)
    ensures
        ms == match since {
            Ok(d) => millis(d) as u64,
            Err(_) => 0,
        },
{
    match since {
        Ok(d) => whole_millis(d) as u64,
        Err(_) => 0,
    }
}

/// The machine's own clock.
#[derive(Debug, Default, Clone, Copy)]
pub struct SystemClock;

impl Clock for SystemClock {
    fn now_ms(&self) -> u64 {
        reading(since_epoch(SystemTime::now()))
    }
}

/// What durations are taken with.
pub struct Timer<C> {
    pub clock: C,
}

impl<C> Timer<C> {
    fn new(clock: C) -> (t: Timer<C>)
        ensures
            t.clock == clock,
    {
        Timer { clock }
    }
}

/// Turns a stream of [`SemanticEvent`] into blocks.
pub struct BlockTracker {
    blocks: Vec<Block>,
    next_id: u64,
    cwd: Option<String>,
    timer: Timer<Box<dyn Clock>>,
    /// How many blocks are kept; older ones leave from the front.
    capacity: usize,
}

/// What a tracker knows.
pub struct TrackerView {
    pub blocks: Seq<BlockView>,
    pub next_id: u64,
    pub cwd: Option<Seq<char>>,
    pub capacity: nat,
}

impl View for BlockTracker {
    type V = TrackerView;

    closed spec fn view(&self) -> TrackerView {
        TrackerView {
            blocks: block_views(self.blocks@),
            next_id: self.next_id,
            cwd: text_view(self.cwd),
            capacity: self.capacity as nat,
        }
    }
}

/// Whether a block has not come to its end.
pub open spec fn open_block(b: BlockView) -> bool {
    b.status is Running || b.status is Prompting
}

/// What holds of every tracker's blocks: there are no more than the capacity,
/// their numbers increase, only the last may be open, and one that is not open
/// has an end row.
pub open spec fn in_history_order(t: TrackerView) -> bool {
    &&& t.blocks.len() <= t.capacity
    &&& forall|i: int, j: int|
        0 <= i < j < t.blocks.len() ==> (#[trigger] t.blocks[i]).id < (#[trigger] t.blocks[j]).id
    &&& forall|i: int| 0 <= i < t.blocks.len() ==> (#[trigger] t.blocks[i]).id < t.next_id
    &&& forall|i: int| 0 <= i < t.blocks.len() - 1 ==> !open_block(#[trigger] t.blocks[i])
    &&& forall|i: int|
        0 <= i < t.blocks.len() && !open_block(t.blocks[i]) ==> (#[trigger] t.blocks[i]).end_row is Some
}

/// `blocks` with the last one replaced.
pub open spec fn with_last(blocks: Seq<BlockView>, last: BlockView) -> Seq<BlockView> {
    blocks.update(blocks.len() - 1, last)
}

/// `blocks` with a block that is still open closed at `row`: the shell never
/// said how it ended.
pub open spec fn close_open_block(blocks: Seq<BlockView>, row: u64) -> Seq<BlockView> {
    if blocks.len() > 0 && (blocks.last().status is Running || blocks.last().status is Prompting) {
        with_last(
            blocks,
            BlockView { status: BlockStatus::Unknown, end_row: Some(row), ..blocks.last() },
        )
    } else {
        blocks
    }
}

/// How a finished command is classified.
pub open spec fn exit_status(exit: Option<i32>) -> BlockStatus {
    match exit {
        Some(code) => if code == 0 {
            BlockStatus::Succeeded
        } else {
            BlockStatus::Failed(code)
        },
        None => BlockStatus::Unknown,
    }
}

/// The time from `start` to `now`, never negative.
pub open spec fn elapsed(start: Option<u64>, now: u64) -> Option<u64> {
    match start {
        Some(s) => Some(
            if now >= s {
                (now - s) as u64
            } else {
                0
            },
        ),
        None => None,
    }
}

/// What a tracker knows after one event, seen at absolute row `row` when the
/// clock read `now`.
pub open spec fn track(t: TrackerView, event: EventView, row: u64, now: u64) -> TrackerView {
    match event {
        EventView::PromptStart => {
            let closed_blocks = close_open_block(t.blocks, row);
            let all = closed_blocks.push(fresh_block(t.next_id, row, t.cwd));
            TrackerView {
                blocks: if all.len() > t.capacity {
                    all.skip(1)
                } else {
                    all
                },
                next_id: (t.next_id + 1) as u64,
                ..t
            }
        },
        EventView::OutputStart { command } => if t.blocks.len() > 0 {
            let b = t.blocks.last();
            TrackerView {
                blocks: with_last(
                    t.blocks,
                    BlockView {
                        output_row: Some(row),
                        status: BlockStatus::Running,
                        started_ms: Some(now),
                        command: if command is Some {
                            command
                        } else {
                            b.command
                        },
                        ..b
                    },
                ),
                ..t
            }
        } else {
            t
        },
        EventView::CommandDone { exit } => if t.blocks.len() > 0 {
            let b = t.blocks.last();
            TrackerView {
                blocks: with_last(
                    t.blocks,
                    BlockView {
                        end_row: Some(row),
                        duration_ms: elapsed(b.started_ms, now),
                        status: exit_status(exit),
                        ..b
                    },
                ),
                ..t
            }
        } else {
            t
        },
        EventView::Cwd(path) => TrackerView {
            cwd: Some(path),
            blocks: if t.blocks.len() > 0 && t.blocks.last().status is Prompting {
                with_last(t.blocks, BlockView { cwd: Some(path), ..t.blocks.last() })
            } else {
                t.blocks
            },
            ..t
        },
        _ => t,
    }
}

/// The history never grows past its capacity.
pub proof fn law_history_is_bounded(t: TrackerView, event: EventView, row: u64, now: u64)
    requires
        t.blocks.len() <= t.capacity,
    ensures
        track(t, event, row, now).blocks.len() <= t.capacity,
        track(t, event, row, now).capacity == t.capacity,
{
}

/// Only a prompt opens a block, and it never leaves an earlier block running:
/// one that was is closed at the prompt's row, with nothing known of its end.
pub proof fn law_a_prompt_leaves_one_open_block(t: TrackerView, row: u64, now: u64)
    requires
        t.capacity > 0,
        forall|i: int|
            0 <= i < t.blocks.len() - 1 ==> !(#[trigger] t.blocks[i].status is Running)
                && !(t.blocks[i].status is Prompting),
    ensures
        ({
            let after = track(t, EventView::PromptStart, row, now).blocks;
            &&& after.last() == fresh_block(t.next_id, row, t.cwd)
            &&& forall|i: int|
                0 <= i < after.len() - 1 ==> !(#[trigger] after[i].status is Running) && !(
                after[i].status is Prompting)
            &&& t.blocks.len() > 0 && after.len() >= 2 && open_block(t.blocks.last())
                ==> after[after.len() - 2] == (BlockView {
                status: BlockStatus::Unknown,
                end_row: Some(row),
                ..t.blocks.last()
            })
        }),
{
    let kept = close_open_block(t.blocks, row);
    let all = kept.push(fresh_block(t.next_id, row, t.cwd));
    let after = track(t, EventView::PromptStart, row, now).blocks;
    let shift = if all.len() > t.capacity {
        1int
    } else {
        0int
    };
    assert forall|i: int| 0 <= i < after.len() - 1 implies !(#[trigger] after[i].status is Running)
        && !(after[i].status is Prompting) by {
        assert(after[i] == kept[i + shift]);
        if i + shift < t.blocks.len() - 1 {
            assert(kept[i + shift] == t.blocks[i + shift]);
        }
    }
}

/// An event keeps the blocks in order.
pub proof fn law_events_keep_the_order(t: TrackerView, event: EventView, row: u64, now: u64)
    requires
        in_history_order(t),
        event is PromptStart ==> t.next_id < u64::MAX,
    ensures
        in_history_order(track(t, event, row, now)),
{
    let after = track(t, event, row, now);
    if event is PromptStart {
        let kept = close_open_block(t.blocks, row);
        let all = kept.push(fresh_block(t.next_id, row, t.cwd));
        let shift = if all.len() > t.capacity {
            1int
        } else {
            0int
        };
        assert forall|i: int| 0 <= i < after.blocks.len() implies #[trigger] after.blocks[i] == all[i
            + shift] by {}
        assert forall|i: int| 0 <= i < kept.len() implies (#[trigger] kept[i]).id == t.blocks[i].id
            && !open_block(kept[i]) && kept[i].end_row is Some by {
            let _ = t.blocks[i];
        }
        assert forall|i: int, j: int| 0 <= i < j < all.len() implies (#[trigger] all[i]).id < (
        #[trigger] all[j]).id by {
            assert(all[i] == kept[i]);
            if j < kept.len() {
                assert(all[j] == kept[j]);
                assert(t.blocks[i].id < t.blocks[j].id);
            } else {
                assert(t.blocks[i].id < t.next_id);
            }
        }
        assert forall|i: int| 0 <= i < after.blocks.len() - 1 implies !open_block(
            #[trigger] after.blocks[i],
        ) by {
            assert(after.blocks[i] == kept[i + shift]);
        }
        assert forall|i: int|
            0 <= i < after.blocks.len() && !open_block(after.blocks[i]) implies (
        #[trigger] after.blocks[i]).end_row is Some by {
            if i + shift < kept.len() {
                assert(after.blocks[i] == kept[i + shift]);
            }
        }
        assert forall|i: int| 0 <= i < after.blocks.len() implies (#[trigger] after.blocks[i]).id
            < after.next_id by {
            if i + shift < kept.len() {
                assert(after.blocks[i] == kept[i + shift]);
                assert(t.blocks[i + shift].id < t.next_id);
            }
        }
    } else {
        assert forall|i: int| 0 <= i < after.blocks.len() implies (#[trigger] after.blocks[i]).id
            == t.blocks[i].id && (i < after.blocks.len() - 1 ==> after.blocks[i] == t.blocks[i]) by {}
    }
}

/// A tracker that has seen nothing.
pub open spec fn fresh_tracker(capacity: nat) -> TrackerView {
    TrackerView { blocks: Seq::empty(), next_id: 1, cwd: None, capacity }
}

/// One event, the row that it came on, and what the clock read.
pub struct Seen {
    pub event: EventView,
    pub row: u64,
    pub now: u64,
}

/// What a tracker knows after some events.
pub open spec fn track_all(t: TrackerView, seen: Seq<Seen>) -> TrackerView
    decreases seen.len(),
{
    if seen.len() == 0 {
        t
    } else {
        track(
            track_all(t, seen.drop_last()),
            seen.last().event,
            seen.last().row,
            seen.last().now,
        )
    }
}

/// Whatever a new tracker is fed, its blocks are in order: no more than its
/// capacity, with increasing numbers, and every block but the last closed, with
/// an end row.
pub proof fn law_blocks_stay_in_order(capacity: nat, seen: Seq<Seen>)
    requires
        seen.len() < u64::MAX,
    ensures
        in_history_order(track_all(fresh_tracker(capacity), seen)),
        track_all(fresh_tracker(capacity), seen).next_id <= 1 + seen.len(),
        track_all(fresh_tracker(capacity), seen).capacity == capacity,
    decreases seen.len(),
{
    if seen.len() > 0 {
        let before = track_all(fresh_tracker(capacity), seen.drop_last());
        law_blocks_stay_in_order(capacity, seen.drop_last());
        law_events_keep_the_order(before, seen.last().event, seen.last().row, seen.last().now);
    }
}

/// A copy of an optional text.
fn copy_text(text: &Option<String>) -> (c: Option<String>)
    ensures
        text_view(c) == text_view(*text),
{
    match text {
        Some(s) => Some(s.clone()),
        None => None,
    }
}

impl BlockTracker {
    /// What durations are taken with.
    pub closed spec fn timed_by(self) -> Timer<Box<dyn Clock>> {
        self.timer
    }

    pub fn new(capacity: usize) -> (t: BlockTracker)
        ensures
            t@ == fresh_tracker(capacity as nat),
            in_history_order(t@),
    {
        BlockTracker::with_clock(capacity, Box::new(SystemClock))
    }

    pub fn with_clock(capacity: usize, clock: Box<dyn Clock>) -> (t: BlockTracker)
        ensures
            t@ == fresh_tracker(capacity as nat),
            in_history_order(t@),
            t.timed_by().clock == clock,
    {
        let timer = Timer::new(clock);
        let t = BlockTracker { blocks: Vec::new(), next_id: 1, cwd: None, timer, capacity };
        assert(t@.blocks =~= Seq::empty());
        t
    }

    /// The tracked blocks, oldest first.
    pub fn blocks(&self) -> (blocks: &[Block])
        ensures
            block_views(blocks@) == self@.blocks,
    {
        self.blocks.as_slice()
    }

    /// The number that the next block gets.
    pub(crate) fn next_id(&self) -> (id: u64)
        ensures
            id == self@.next_id,
    {
        self.next_id
    }

    pub fn cwd(&self) -> (cwd: Option<&str>)
        ensures
            match cwd {
                Some(s) => self@.cwd == Some(s@),
                None => self@.cwd is None,
            },
    {
        match &self.cwd {
            Some(s) => Some(s.as_str()),
            None => None,
        }
    }

    /// Feeds one event. `row` is the absolute row that the cursor was on when
    /// it arrived.
    pub fn apply(&mut self, event: SemanticEvent, row: u64)
        requires
            event is PromptStart ==> old(self)@.next_id < u64::MAX,
        ensures
            exists|now: u64| #[trigger] track(old(self)@, event@, row, now) == final(self)@,
            final(self).timed_by() == old(self).timed_by(),
            in_history_order(old(self)@) ==> in_history_order(final(self)@),
    {
        let reads_clock = match &event {
            SemanticEvent::OutputStart { .. } => true,
            SemanticEvent::CommandDone { .. } => true,
            _ => false,
        };
        let now: u64 = if reads_clock {
            self.timer.clock.now_ms()
        } else {
            0
        };
        self.apply_at(event, row, now);
        assert(track(old(self)@, event@, row, now) == self@);
    }

    /// Feeds one event that arrived when the clock read `now`.
    pub fn apply_at(&mut self, event: SemanticEvent, row: u64, now: u64)
        requires
            event is PromptStart ==> old(self)@.next_id < u64::MAX,
        ensures
            final(self)@ == track(old(self)@, event@, row, now),
            final(self).timed_by() == old(self).timed_by(),
            in_history_order(old(self)@) ==> in_history_order(final(self)@),
    {
        proof {
            if in_history_order(self@) {
                law_events_keep_the_order(self@, event@, row, now);
            }
        }
        let n: usize = self.blocks.len();
        match event {
            SemanticEvent::PromptStart => {
                if n > 0 {
                    let open = match self.blocks[n - 1].status {
                        BlockStatus::Running => true,
                        BlockStatus::Prompting => true,
                        _ => false,
                    };
                    if open {
                        let b = &mut self.blocks[n - 1];
                        b.status = BlockStatus::Unknown;
                        b.end_row = Some(row);
                    }
                }
                assert(block_views(self.blocks@) =~= close_open_block(old(self)@.blocks, row));
                let id: u64 = self.next_id;
                self.next_id = self.next_id + 1;
                let cwd = copy_text(&self.cwd);
                self.blocks.push(Block::new(id, row, cwd));
                assert(block_views(self.blocks@) =~= close_open_block(
                    old(self)@.blocks,
                    row,
                ).push(fresh_block(id, row, old(self)@.cwd)));
                if self.blocks.len() > self.capacity {
                    let ghost all = self.blocks@;
                    self.blocks.remove(0);
                    assert(block_views(self.blocks@) =~= block_views(all).skip(1));
                }
            },
            SemanticEvent::OutputStart { command } => {
                if n > 0 {
                    let b = &mut self.blocks[n - 1];
                    b.output_row = Some(row);
                    b.status = BlockStatus::Running;
                    b.started_ms = Some(now);
                    if command.is_some() {
                        b.command = command;
                    }
                }
                assert(self@.blocks =~= track(old(self)@, event@, row, now).blocks);
            },
            SemanticEvent::CommandDone { exit } => {
                if n > 0 {
                    let b = &mut self.blocks[n - 1];
                    b.end_row = Some(row);
                    b.duration_ms = match b.started_ms {
                        Some(s) => Some(now.saturating_sub(s)),
                        None => None,
                    };
                    b.status = match exit {
                        Some(code) => if code == 0 {
                            BlockStatus::Succeeded
                        } else {
                            BlockStatus::Failed(code)
                        },
                        None => BlockStatus::Unknown,
                    };
                }
                assert(self@.blocks =~= track(old(self)@, event@, row, now).blocks);
            },
            SemanticEvent::Cwd(path) => {
                self.cwd = Some(path.clone());
                if n > 0 {
                    let prompting = match self.blocks[n - 1].status {
                        BlockStatus::Prompting => true,
                        _ => false,
                    };
                    if prompting {
                        let b = &mut self.blocks[n - 1];
                        b.cwd = Some(path);
                    }
                }
                assert(self@.blocks =~= track(old(self)@, event@, row, now).blocks);
            },
            _ => {},
        }
    }

    /// Records the command line that the user ran, unless it is known already.
    pub fn set_current_command(&mut self, command: String)
        ensures
            final(self)@ == (TrackerView {
                blocks: if old(self)@.blocks.len() > 0 && old(self)@.blocks.last().command is None {
                    with_last(
                        old(self)@.blocks,
                        BlockView { command: Some(command@), ..old(self)@.blocks.last() },
                    )
                } else {
                    old(self)@.blocks
                },
                ..old(self)@
            }),
            final(self).timed_by() == old(self).timed_by(),
            in_history_order(old(self)@) ==> in_history_order(final(self)@),
    {
        let n: usize = self.blocks.len();
        if n > 0 {
            if self.blocks[n - 1].command.is_none() {
                let b = &mut self.blocks[n - 1];
                b.command = Some(command);
            }
        }
        assert(self@.blocks =~= if old(self)@.blocks.len() > 0 && old(
            self,
        )@.blocks.last().command is None {
            with_last(
                old(self)@.blocks,
                BlockView { command: Some(command@), ..old(self)@.blocks.last() },
            )
        } else {
            old(self)@.blocks
        });
    }

    /// The first block that starts below `row`.
    pub fn next_block_after(&self, row: u64) -> (found: Option<&Block>)
        ensures
            match found {
                Some(b) => exists|i: int|
                    0 <= i < self@.blocks.len() && #[trigger] self@.blocks[i] == b@ && b.start_row > row
                        && forall|j: int|
                        0 <= j < i ==> (#[trigger] self@.blocks[j]).start_row <= row,
                None => forall|j: int|
                    0 <= j < self@.blocks.len() ==> (#[trigger] self@.blocks[j]).start_row <= row,
            },
    {
        let mut i: usize = 0;
        while i < self.blocks.len()
            invariant
                i <= self.blocks.len(),
                forall|j: int| 0 <= j < i ==> (#[trigger] self@.blocks[j]).start_row <= row,
            decreases self.blocks.len() - i,
        {
            if self.blocks[i].start_row > row {
                assert(self@.blocks[i as int] == self.blocks@[i as int]@);
                return Some(&self.blocks[i]);
            }
            i += 1;
        }
        None
    }

    /// The last block that starts above `row`.
    pub fn previous_block_before(&self, row: u64) -> (found: Option<&Block>)
        ensures
            match found {
                Some(b) => exists|i: int|
                    0 <= i < self@.blocks.len() && #[trigger] self@.blocks[i] == b@ && b.start_row < row
                        && forall|j: int|
                        i < j < self@.blocks.len() ==> (#[trigger] self@.blocks[j]).start_row >= row,
                None => forall|j: int|
                    0 <= j < self@.blocks.len() ==> (#[trigger] self@.blocks[j]).start_row >= row,
            },
    {
        let mut i: usize = self.blocks.len();
        while i > 0
            invariant
                i <= self.blocks.len(),
                forall|j: int|
                    i <= j < self@.blocks.len() ==> (#[trigger] self@.blocks[j]).start_row >= row,
            decreases i,
        {
            i -= 1;
            if self.blocks[i].start_row < row {
                assert(self@.blocks[i as int] == self.blocks@[i as int]@);
                return Some(&self.blocks[i]);
            }
        }
        None
    }

    /// Folds or unfolds the block with that id: the first such block, if any.
    pub fn toggle_fold(&mut self, id: u64)
        ensures
            final(self)@ == (TrackerView {
                blocks: toggled(old(self)@.blocks, id),
                ..old(self)@
            }),
            final(self).timed_by() == old(self).timed_by(),
            in_history_order(old(self)@) ==> in_history_order(final(self)@),
    {
        proof {
            lemma_toggled(self@.blocks, id);
        }
        let mut i: usize = 0;
        assert(self@.blocks.skip(0) =~= self@.blocks);
        assert(toggled(self@.blocks, id) =~= self@.blocks.take(0) + toggled(self@.blocks, id));
        while i < self.blocks.len()
            invariant
                i <= self.blocks.len(),
                self@ == old(self)@,
                self.timer == old(self).timer,
                toggled(self@.blocks, id) == self@.blocks.take(i as int) + toggled(
                    self@.blocks.skip(i as int),
                    id,
                ),
            decreases self.blocks.len() - i,
        {
            let ghost all = self@.blocks;
            let ghost rest = all.skip(i as int);
            assert(rest[0] == self.blocks@[i as int]@);
            if self.blocks[i].id == id {
                let folded = self.blocks[i].folded;
                let b = &mut self.blocks[i];
                b.folded = !folded;
                assert(self@.blocks =~= toggled(all, id));
                return ;
            }
            assert(rest.drop_first() =~= all.skip(i + 1));
            assert(all.take(i + 1) =~= all.take(i as int).push(rest[0]));
            assert(toggled(all, id) =~= all.take(i + 1) + toggled(all.skip(i + 1), id));
            i += 1;
        }
        assert(self@.blocks.skip(i as int) =~= Seq::empty());
        assert(self@.blocks =~= toggled(self@.blocks, id));
    }
}

/// Folding changes nothing else.
proof fn lemma_toggled(blocks: Seq<BlockView>, id: u64)
    ensures
        toggled(blocks, id).len() == blocks.len(),
        forall|i: int|
            0 <= i < blocks.len() ==> #[trigger] toggled(blocks, id)[i] == (BlockView {
                folded: toggled(blocks, id)[i].folded,
                ..blocks[i]
            }),
    decreases blocks.len(),
{
    if blocks.len() > 0 && blocks[0].id != id {
        lemma_toggled(blocks.drop_first(), id);
    }
}

/// `blocks` with the first one that has this id folded or unfolded.
pub open spec fn toggled(blocks: Seq<BlockView>, id: u64) -> Seq<BlockView>
    decreases blocks.len(),
{
    if blocks.len() == 0 {
        blocks
    } else if blocks[0].id == id {
        blocks.update(0, BlockView { folded: !blocks[0].folded, ..blocks[0] })
    } else {
        seq![blocks[0]] + toggled(blocks.drop_first(), id)
    }
}

/// A finished command is classified by the code that the shell reported: 0 is
/// success, any other code is a failure with that code, and none at all leaves
/// it unknown. It ends on the row that it was reported on, and took the time
/// since its output began. Nothing else changes.
pub proof fn law_a_command_ends_with_its_code(
    t: TrackerView,
    exit: Option<i32>,
    row: u64,
    now: u64,
)
    requires
        t.blocks.len() > 0,
    ensures
        ({
            let after = track(t, EventView::CommandDone { exit }, row, now);
            let (b, was) = (after.blocks.last(), t.blocks.last());
            &&& after.blocks.len() == t.blocks.len()
            &&& forall|i: int|
                0 <= i < t.blocks.len() - 1 ==> #[trigger] after.blocks[i] == t.blocks[i]
            &&& b.status == BlockStatus::Succeeded <==> exit == Some(0i32)
            &&& forall|c: i32| exit == Some(c) && c != 0 ==> b.status == BlockStatus::Failed(c)
            &&& b.status == BlockStatus::Unknown <==> exit is None
            &&& b.end_row == Some(row)
            &&& was.started_ms is None ==> b.duration_ms is None
            &&& was.started_ms is Some && was.started_ms->0 <= now ==> b.duration_ms is Some
                && was.started_ms->0 + b.duration_ms->0 == now
            &&& was.started_ms is Some && was.started_ms->0 > now ==> b.duration_ms == Some(0u64)
            &&& b.id == was.id && b.start_row == was.start_row && b.output_row == was.output_row
            &&& b.command == was.command && b.cwd == was.cwd && b.folded == was.folded
            &&& b.started_ms == was.started_ms
            &&& after.next_id == t.next_id && after.cwd == t.cwd && after.capacity == t.capacity
        }),
{
}

/// Where output begins, the last block runs: from that row, from that moment,
/// with the command that the shell named, or the one that was known before.
pub proof fn law_a_command_starts_with_its_output(
    t: TrackerView,
    command: Option<Seq<char>>,
    row: u64,
    now: u64,
)
    requires
        t.blocks.len() > 0,
    ensures
        ({
            let after = track(t, EventView::OutputStart { command }, row, now);
            let (b, was) = (after.blocks.last(), t.blocks.last());
            &&& after.blocks.len() == t.blocks.len()
            &&& forall|i: int|
                0 <= i < t.blocks.len() - 1 ==> #[trigger] after.blocks[i] == t.blocks[i]
            &&& b.status == BlockStatus::Running
            &&& b.output_row == Some(row)
            &&& b.started_ms == Some(now)
            &&& command is Some ==> b.command == command
            &&& command is None ==> b.command == was.command
            &&& b.id == was.id && b.start_row == was.start_row && b.end_row == was.end_row
            &&& b.cwd == was.cwd && b.folded == was.folded && b.duration_ms == was.duration_ms
            &&& after.next_id == t.next_id && after.cwd == t.cwd && after.capacity == t.capacity
        }),
{
}

/// A prompt opens a block of its own on its row: with the next number, in the
/// directory that was told last, with nothing else known of it, unfolded. The
/// oldest block leaves where there is no room for one more.
pub proof fn law_a_prompt_opens_a_block(t: TrackerView, row: u64, now: u64)
    requires
        t.capacity > 0,
        t.blocks.len() <= t.capacity,
        t.next_id < u64::MAX,
    ensures
        ({
            let after = track(t, EventView::PromptStart, row, now);
            let b = after.blocks.last();
            &&& b.id == t.next_id
            &&& after.next_id == t.next_id + 1
            &&& b.start_row == row
            &&& b.cwd == t.cwd
            &&& b.status == BlockStatus::Prompting
            &&& b.output_row is None && b.end_row is None && b.command is None
            &&& b.started_ms is None && b.duration_ms is None && !b.folded
            &&& after.cwd == t.cwd && after.capacity == t.capacity
            &&& t.blocks.len() < t.capacity ==> after.blocks.len() == t.blocks.len() + 1 && (
            forall|i: int|
                0 <= i < t.blocks.len() - 1 ==> #[trigger] after.blocks[i] == t.blocks[i])
            &&& t.blocks.len() == t.capacity ==> after.blocks.len() == t.capacity && (forall|i: int|
                0 <= i < t.blocks.len() - 2 ==> #[trigger] after.blocks[i] == t.blocks[i + 1])
        }),
{
}

/// A prompt leaves a finished block as it is.
pub proof fn law_a_prompt_keeps_what_is_finished(t: TrackerView, row: u64, now: u64)
    requires
        0 < t.blocks.len() < t.capacity,
        !(t.blocks.last().status is Running),
        !(t.blocks.last().status is Prompting),
    ensures
        track(t, EventView::PromptStart, row, now).blocks[t.blocks.len() - 1] == t.blocks.last(),
{
}

/// A directory that the shell tells holds from then on: for the block at whose
/// prompt it is told, and for those that come. A command that runs or ran keeps
/// the one it was started in.
pub proof fn law_directories_hold_from_where_they_are_told(
    t: TrackerView,
    path: Seq<char>,
    row: u64,
    now: u64,
)
    ensures
        ({
            let after = track(t, EventView::Cwd(path), row, now);
            &&& after.cwd == Some(path)
            &&& after.blocks.len() == t.blocks.len()
            &&& forall|i: int|
                0 <= i < t.blocks.len() - 1 ==> #[trigger] after.blocks[i] == t.blocks[i]
            &&& t.blocks.len() > 0 && t.blocks.last().status == BlockStatus::Prompting ==> {
                &&& after.blocks.last().cwd == Some(path)
                &&& after.blocks.last().status == BlockStatus::Prompting
                &&& after.blocks.last().id == t.blocks.last().id
                &&& after.blocks.last().start_row == t.blocks.last().start_row
                &&& after.blocks.last().command == t.blocks.last().command
            }
            &&& t.blocks.len() > 0 && t.blocks.last().status != BlockStatus::Prompting
                ==> after.blocks == t.blocks
            &&& after.next_id == t.next_id && after.capacity == t.capacity
        }),
{
}

/// Titles, notifications, clipboard writes, bells and the end of a prompt say
/// nothing of blocks.
pub proof fn law_other_events_are_no_news(
    t: TrackerView,
    text: Seq<char>,
    title: Option<Seq<char>>,
    row: u64,
    now: u64,
)
    ensures
        track(t, EventView::CommandStart, row, now) == t,
        track(t, EventView::Title(text), row, now) == t,
        track(t, EventView::Notification { title, body: text }, row, now) == t,
        track(t, EventView::ClipboardWrite(text), row, now) == t,
        track(t, EventView::Bell, row, now) == t,
        t.blocks.len() == 0 ==> track(t, EventView::OutputStart { command: title }, row, now) == t,
        t.blocks.len() == 0 ==> track(t, EventView::CommandDone { exit: None }, row, now) == t,
{
}

/// Folding folds one block, the first with that number, and twice folds none.
pub proof fn law_folding_twice_changes_nothing(blocks: Seq<BlockView>, id: u64, k: int)
    requires
        0 <= k < blocks.len(),
        blocks[k].id == id,
        forall|i: int| 0 <= i < k ==> (#[trigger] blocks[i]).id != id,
    ensures
        toggled(blocks, id).len() == blocks.len(),
        toggled(blocks, id)[k].folded != blocks[k].folded,
        toggled(blocks, id)[k].id == id,
        toggled(blocks, id)[k].status == blocks[k].status,
        toggled(blocks, id)[k].start_row == blocks[k].start_row,
        forall|i: int|
            0 <= i < blocks.len() && i != k ==> #[trigger] toggled(blocks, id)[i] == blocks[i],
        toggled(toggled(blocks, id), id) == blocks,
    decreases blocks.len(),
{
    let t = toggled(blocks, id);
    if k == 0 {
        assert(toggled(t, id) =~= blocks);
    } else {
        let rest = blocks.drop_first();
        assert forall|i: int| 0 <= i < k - 1 implies (#[trigger] rest[i]).id != id by {
            assert(rest[i] == blocks[i + 1]);
        }
        assert(blocks[0].id != id);
        law_folding_twice_changes_nothing(rest, id, k - 1);
        assert(t.drop_first() =~= toggled(rest, id));
        assert(toggled(t, id) =~= blocks);
        assert forall|i: int| 0 <= i < blocks.len() && i != k implies #[trigger] t[i]
            == blocks[i] by {
            if i > 0 {
                assert(t[i] == toggled(rest, id)[i - 1]);
                assert(rest[i - 1] == blocks[i]);
            }
        }
    }
}

/// A number that no block has folds nothing.
pub proof fn law_a_strange_number_folds_nothing(blocks: Seq<BlockView>, id: u64)
    requires
        forall|i: int| 0 <= i < blocks.len() ==> (#[trigger] blocks[i]).id != id,
    ensures
        toggled(blocks, id) == blocks,
    decreases blocks.len(),
{
    if blocks.len() > 0 {
        let rest = blocks.drop_first();
        assert forall|i: int| 0 <= i < rest.len() implies (#[trigger] rest[i]).id != id by {
            assert(rest[i] == blocks[i + 1]);
        }
        assert(blocks[0].id != id);
        law_a_strange_number_folds_nothing(rest, id);
        assert(toggled(blocks, id) =~= blocks);
    }
}

} // verus!
