//! One surface: a terminal, the blocks that its child's marks delimit, and what
//! the window has to be told.
//!
//! A session does nothing on its own. Its owner hands it what the child wrote
//! and passes on the replies, so that a child that is silent costs nothing.

use vstd::prelude::*;

use crate::alacritty::{
    all_dirty, ascii, can_be_copied, cursor_of, fresh_core, line_bounds_of, moved, reshaped,
    scrolled, selecting, selection_of, wrote, Backend, CoreView, ScreenView, SinkView,
    MAX_SCROLLBACK,
};
use crate::backend::{CursorState, Selection};
use crate::mirror::{at_least_one, MirrorView, RowRef};
use crate::osc::SnifferView;
use crate::pty::{exit_code, ExitStatus, PtyEvent};
use crate::semantic::{
    block_views, event_views, text_view, track, Block, BlockTracker, EventView, SemanticEvent,
    TrackerView,
};
use crate::settings::Settings;
use crate::sidetable::SideTables;

verus! {

/// How many blocks a session keeps.
pub const KEPT_BLOCKS: usize = 4096;

/// What a session cannot act on itself.
#[derive(Debug, Clone, PartialEq, Eq)]
pub enum SessionEvent {
    TitleChanged(String),
    CwdChanged(String),
    Notification { title: Option<String>, body: String },
    ClipboardWrite(String),
    Bell,
    /// The child ended, with that code if it gave one.
    Exited(Option<i32>),
}

/// [`SessionEvent`] with its texts as character sequences.
pub enum SessionEventView {
    TitleChanged(Seq<char>),
    CwdChanged(Seq<char>),
    Notification { title: Option<Seq<char>>, body: Seq<char> },
    ClipboardWrite(Seq<char>),
    Bell,
    Exited(Option<i32>),
}

impl View for SessionEvent {
    type V = SessionEventView;

    open spec fn view(&self) -> SessionEventView {
        match *self {
            SessionEvent::TitleChanged(t) => SessionEventView::TitleChanged(t@),
            SessionEvent::CwdChanged(p) => SessionEventView::CwdChanged(p@),
            SessionEvent::Notification { title, body } => SessionEventView::Notification {
                title: text_view(title),
                body: body@,
            },
            SessionEvent::ClipboardWrite(t) => SessionEventView::ClipboardWrite(t@),
            SessionEvent::Bell => SessionEventView::Bell,
            SessionEvent::Exited(c) => SessionEventView::Exited(c),
        }
    }
}

/// What events are.
pub open spec fn told(events: Seq<SessionEvent>) -> Seq<SessionEventView> {
    events.map_values(|e: SessionEvent| e@)
}

/// A terminal and what is known about its child.
pub struct Session {
    core: Backend,
    blocks: BlockTracker,
    events: Vec<SessionEvent>,
    cols: u16,
    rows: u16,
    exited: Option<ExitStatus>,
    /// Set while the user reads what has scrolled away.
    pinned_to_history: bool,
}

/// What a session holds.
#[verifier::ext_equal]
pub struct SessionView {
    pub core: CoreView,
    pub blocks: TrackerView,
    pub events: Seq<SessionEventView>,
    pub exited: Option<ExitStatus>,
    pub pinned: bool,
}

impl View for Session {
    type V = SessionView;

    closed spec fn view(&self) -> SessionView {
        SessionView {
            core: self.core@,
            blocks: self.blocks@,
            events: told(self.events@),
            exited: self.exited,
            pinned: self.pinned_to_history,
        }
    }
}

/// What the window is told of a terminal's event, if anything.
pub open spec fn surfaced(event: EventView) -> Option<SessionEventView> {
    match event {
        EventView::Title(t) => Some(SessionEventView::TitleChanged(t)),
        EventView::Cwd(p) => Some(SessionEventView::CwdChanged(p)),
        EventView::Notification { title, body } => Some(
            SessionEventView::Notification { title, body },
        ),
        EventView::ClipboardWrite(t) => Some(SessionEventView::ClipboardWrite(t)),
        EventView::Bell => Some(SessionEventView::Bell),
        _ => None,
    }
}

/// What the window is told of the first `n` events.
pub open spec fn surfaced_all(events: Seq<EventView>, n: int) -> Seq<SessionEventView>
    decreases n,
{
    if n <= 0 {
        Seq::empty()
    } else {
        match surfaced(events[n - 1]) {
            Some(e) => surfaced_all(events, n - 1).push(e),
            None => surfaced_all(events, n - 1),
        }
    }
}

/// One event taken up, as long as there are numbers for blocks.
pub open spec fn followed_one(t: TrackerView, event: EventView, row: u64, now: u64) -> TrackerView {
    if event is PromptStart && t.next_id == u64::MAX {
        t
    } else {
        track(t, event, row, now)
    }
}

/// The first `n` events taken up, with the times at which they came.
pub open spec fn followed(
    t: TrackerView,
    events: Seq<EventView>,
    row: u64,
    times: Seq<u64>,
    n: int,
) -> TrackerView
    decreases n,
{
    if n <= 0 {
        t
    } else {
        followed_one(followed(t, events, row, times, n - 1), events[n - 1], row, times[n - 1])
    }
}

/// Whether events were taken up, at some times.
pub open spec fn tracks_to(
    before: TrackerView,
    events: Seq<EventView>,
    row: u64,
    after: TrackerView,
) -> bool {
    exists|times: Seq<u64>|
        times.len() == events.len() && after == #[trigger] followed(
            before,
            events,
            row,
            times,
            events.len() as int,
        )
}

/// The row of the cursor, from the oldest line that is kept, wherever the window
/// is.
pub open spec fn cursor_row(v: ScreenView) -> u64 {
    (v.history + v.cursor.0) as u64
}

/// The events that the terminal has ready.
pub open spec fn pending(c: CoreView) -> Seq<EventView> {
    c.sniffer.events + c.sink.events
}

/// A terminal whose events were taken.
pub open spec fn without_events(c: CoreView) -> CoreView {
    CoreView {
        sniffer: SnifferView { events: Seq::empty(), ..c.sniffer },
        sink: SinkView { events: Seq::empty(), ..c.sink },
        ..c
    }
}

/// Whether a session turned into another by taking in the terminal's events.
pub open spec fn took_in(a: SessionView, b: SessionView) -> bool {
    &&& b.core == without_events(a.core)
    &&& b.events == a.events + surfaced_all(pending(a.core), pending(a.core).len() as int)
    &&& tracks_to(a.blocks, pending(a.core), cursor_row(a.core.screen), b.blocks)
    &&& b.exited == a.exited
    &&& b.pinned == a.pinned
}

/// Whether each terminal turned into the next by taking in the next bytes.
pub open spec fn chained(cores: Seq<Backend>, bytes: Seq<Seq<u8>>) -> bool {
    &&& cores.len() == bytes.len() + 1
    &&& forall|i: int|
        0 <= i < bytes.len() ==> wrote(cores[i], cores[i + 1], #[trigger] bytes[i])
}

/// Whether a terminal turned into another by taking in runs of bytes.
pub open spec fn fed(a: Backend, b: Backend, bytes: Seq<Seq<u8>>) -> bool {
    exists|cores: Seq<Backend>| #[trigger]
        chained(cores, bytes) && cores.first() == a && cores.last() == b
}

/// How many outputs came before the child closed the terminal.
pub open spec fn outputs_before_end(events: Seq<PtyEvent>) -> int
    decreases events.len(),
{
    if events.len() == 0 || !(events[0] is Output) {
        0
    } else {
        1 + outputs_before_end(events.skip(1))
    }
}

/// The bytes that the child wrote.
pub open spec fn outputs(events: Seq<PtyEvent>) -> Seq<Seq<u8>> {
    Seq::new(outputs_before_end(events) as nat, |i: int| events[i]->Output_0@)
}

proof fn lemma_outputs(events: Seq<PtyEvent>, n: int)
    requires
        0 <= n <= events.len(),
        forall|i: int| 0 <= i < n ==> #[trigger] events[i] is Output,
        n < events.len() ==> !(events[n] is Output),
    ensures
        outputs_before_end(events) == n,
    decreases events.len(),
{
    if n > 0 {
        assert(events[0] is Output);
        assert forall|i: int| 0 <= i < n - 1 implies #[trigger] events.skip(1)[i] is Output by {
            assert(events[i + 1] is Output);
        }
        lemma_outputs(events.skip(1), n - 1);
    }
}

/// Whether the child closed the terminal.
pub open spec fn ended(events: Seq<PtyEvent>) -> bool {
    outputs_before_end(events) < events.len()
}

/// What the window is told of the end. The end of one child is told once, as
/// long as its status could be had.
pub open spec fn announced(
    events: Seq<PtyEvent>,
    had: Option<ExitStatus>,
    status: Option<ExitStatus>,
) -> Seq<SessionEventView> {
    if ended(events) {
        let failure = match events[outputs_before_end(events)] {
            PtyEvent::Error(e) => seq![
                SessionEventView::Notification { title: Some("Terminal error"@), body: e@ },
            ],
            _ => Seq::empty(),
        };
        failure + if had is Some {
            Seq::empty()
        } else {
            seq![
                SessionEventView::Exited(
                    match status {
                        Some(s) => exit_code(s),
                        None => None,
                    },
                ),
            ]
        }
    } else {
        Seq::empty()
    }
}

/// A session that was told of the end.
pub open spec fn with_end(
    a: SessionView,
    core: CoreView,
    events: Seq<PtyEvent>,
    status: Option<ExitStatus>,
) -> SessionView {
    SessionView {
        core,
        events: a.events + announced(events, a.exited, status),
        exited: if ended(events) && a.exited is None {
            status
        } else {
            a.exited
        },
        ..a
    }
}

/// A terminal whose replies were taken.
pub open spec fn without_replies(c: CoreView) -> CoreView {
    CoreView { sink: SinkView { replies: Seq::empty(), ..c.sink }, ..c }
}

/// Whether a session turned into another by taking in what arrived.
pub open spec fn pumped(
    a: Session,
    b: Session,
    events: Seq<PtyEvent>,
    status: Option<ExitStatus>,
    replies: Seq<u8>,
) -> bool {
    exists|core: Backend, mid: SessionView|
        {
            &&& #[trigger] fed(a.terminal(), core, outputs(events))
            &&& #[trigger] took_in(with_end(a@, core@, events, status), mid)
            &&& replies == mid.core.sink.replies
            &&& b@ == (SessionView { core: without_replies(mid.core), ..mid })
        }
}

/// Whether a session turned into another by taking in what arrived, with the
/// status that `wait` gave if it was asked.
pub open spec fn pumped_with<W: FnOnce() -> Option<ExitStatus>>(
    a: Session,
    b: Session,
    events: Seq<PtyEvent>,
    wait: W,
    replies: Seq<u8>,
) -> bool {
    exists|status: Option<ExitStatus>|
        {
            &&& #[trigger] pumped(a, b, events, status, replies)
            &&& ended(events) && a@.exited is None ==> call_ensures(wait, (), status)
        }
}

fn copy_text(text: &Option<String>) -> (c: Option<String>)
    ensures
        text_view(c) == text_view(*text),
{
    match text {
        Some(s) => Some(s.clone()),
        None => None,
    }
}

/// What the window is told of a terminal's event.
fn surface(event: &SemanticEvent) -> (e: Option<SessionEvent>)
    ensures
        match e {
            Some(s) => surfaced(event@) == Some(s@),
            None => surfaced(event@) is None,
        },
{
    match event {
        SemanticEvent::Title(t) => Some(SessionEvent::TitleChanged(t.clone())),
        SemanticEvent::Cwd(p) => Some(SessionEvent::CwdChanged(p.clone())),
        SemanticEvent::Notification { title, body } => Some(
            SessionEvent::Notification { title: copy_text(title), body: body.clone() },
        ),
        SemanticEvent::ClipboardWrite(t) => Some(SessionEvent::ClipboardWrite(t.clone())),
        SemanticEvent::Bell => Some(SessionEvent::Bell),
        _ => None,
    }
}

impl Session {
    pub closed spec fn wf(self) -> bool {
        &&& self.core.wf()
        &&& self.cols == self.core@.mirror.cols
        &&& self.rows == self.core@.mirror.rows.len()
    }

    /// The terminal.
    pub closed spec fn terminal(self) -> Backend {
        self.core
    }

    /// A session whose terminal has that size.
    pub fn new(settings: &Settings, cols: u16, rows: u16) -> (s: Session)
        requires
            settings.scrollback <= MAX_SCROLLBACK,
        ensures
            s.wf(),
            s.terminal().stored().untouched(),
            s@ == (SessionView {
                core: fresh_core(at_least_one(cols), at_least_one(rows), settings.scrollback),
                blocks: TrackerView {
                    blocks: Seq::empty(),
                    next_id: 1,
                    cwd: None,
                    capacity: KEPT_BLOCKS as nat,
                },
                events: Seq::empty(),
                exited: None,
                pinned: false,
            }),
    {
        let core = Backend::new(cols, rows, settings.scrollback);
        let cols: u16 = if cols == 0 {
            1
        } else {
            cols
        };
        let rows: u16 = if rows == 0 {
            1
        } else {
            rows
        };
        let s = Session {
            core,
            blocks: BlockTracker::new(KEPT_BLOCKS),
            events: Vec::new(),
            cols,
            rows,
            exited: None,
            pinned_to_history: false,
        };
        assert(told(s.events@) =~= Seq::empty());
        s
    }

    /// Takes in what the child wrote.
    pub fn output(&mut self, bytes: &[u8])
        requires
            old(self).wf(),
            old(self)@.core.screen.columns >= 2 || ascii(bytes@),
        ensures
            final(self).wf(),
            wrote(old(self).terminal(), final(self).terminal(), bytes@),
            final(self)@ == (SessionView { core: final(self)@.core, ..old(self)@ }),
            final(self)@.core == final(self).terminal()@,
            bytes@.len() == 0 ==> *final(self) == *old(self),
    {
        proof {
            self.core.lemma_wf_shape();
        }
        self.core.write(bytes);
        proof {
            self.core.lemma_wf_shape();
        }
    }

    /// The row of the cursor, from the oldest line that is kept. It names that
    /// row for as long as the row is kept.
    fn absolute_cursor_row(&self) -> (row: u64)
        requires
            self.wf(),
        ensures
            row == cursor_row(self@.core.screen),
    {
        proof {
            self.core.lemma_wf_shape();
        }
        let history: u64 = self.core.history_len() as u64;
        let rows: u64 = self.rows as u64;
        history.saturating_sub(rows) + self.core.cursor_line() as u64
    }

    /// Takes in the events that the terminal has ready: the window is told of
    /// some, and blocks come from others.
    pub fn absorb_semantics(&mut self)
        requires
            old(self).wf(),
        ensures
            final(self).wf(),
            took_in(old(self)@, final(self)@),
    {
        let row: u64 = self.absolute_cursor_row();
        let mut events = self.core.drain_semantic_events();
        let ghost all = pending(old(self)@.core);
        let ghost start = self.blocks@;
        let ghost said = told(self.events@);
        let ghost mut times: Seq<u64> = Seq::empty();
        let n: usize = events.len();
        assert(event_views(events@).len() == events@.len());
        assert(event_views(events@) =~= all.skip(0));
        assert(told(self.events@) =~= said + surfaced_all(all, 0));
        let mut i: usize = 0;
        while i < n
            invariant
                i <= n == all.len(),
                self.wf(),
                self.core@ == without_events(old(self)@.core),
                self.exited == old(self)@.exited,
                self.pinned_to_history == old(self)@.pinned,
                event_views(events@) == all.skip(i as int),
                events@.len() == n - i,
                times.len() == i,
                told(self.events@) == said + surfaced_all(all, i as int),
                self.blocks@ == followed(start, all, row, times, i as int),
            decreases n - i,
        {
            let ghost held = events@;
            let event = events.remove(0);
            assert(event@ == event_views(held)[0]);
            assert(event@ == all[i as int]);
            assert(event_views(events@) =~= event_views(held).skip(1));
            assert(event_views(events@) =~= all.skip(i + 1));
            let ghost had = told(self.events@);
            let news = surface(&event);
            match news {
                Some(e) => {
                    self.events.push(e);
                    assert(told(self.events@) =~= had.push(e@));
                },
                None => {},
            }
            assert(told(self.events@) =~= said + surfaced_all(all, i + 1));
            let out_of_numbers = match &event {
                SemanticEvent::PromptStart => self.blocks.next_id() == u64::MAX,
                _ => false,
            };
            let ghost before = self.blocks@;
            let ghost earlier = times;
            let ghost view = event@;
            if !out_of_numbers {
                self.blocks.apply(event, row);
                proof {
                    let now = choose|now: u64| #[trigger]
                        track(before, view, row, now) == self.blocks@;
                    times = times.push(now);
                }
            } else {
                proof {
                    times = times.push(0);
                }
            }
            proof {
                lemma_followed_extends(start, all, row, earlier, times, i as int);
            }
            i += 1;
        }
        assert(self.blocks@ == followed(start, all, row, times, all.len() as int));
        assert(tracks_to(start, all, row, self.blocks@));
    }

    /// The child ended; `wait` gives its status if it can be had. The end is
    /// told once.
    pub fn finish<W: FnOnce() -> Option<ExitStatus>>(&mut self, wait: W) -> (status: Option<
        ExitStatus,
    >)
        requires
            old(self).wf(),
            call_requires(wait, ()),
        ensures
            final(self).wf(),
            final(self).terminal() == old(self).terminal(),
            old(self)@.exited is Some ==> final(self)@ == old(self)@,
            old(self)@.exited is None ==> {
                &&& call_ensures(wait, (), status)
                &&& final(self)@ == (SessionView {
                    exited: status,
                    events: old(self)@.events.push(
                        SessionEventView::Exited(
                            match status {
                                Some(s) => exit_code(s),
                                None => None,
                            },
                        ),
                    ),
                    ..old(self)@
                })
            },
    {
        if self.exited.is_some() {
            return self.exited;
        }
        let status = wait();
        self.exited = status;
        let code = match status {
            Some(s) => s.code(),
            None => None,
        };
        self.events.push(SessionEvent::Exited(code));
        assert(told(self.events@) =~= old(self)@.events.push(SessionEventView::Exited(code)));
        status
    }

    /// Takes in what arrived, up to where the child closed the terminal, and
    /// says whether there was anything, with what to send back. A frame is worth
    /// drawing only if there was.
    pub fn pump<W: FnOnce() -> Option<ExitStatus>>(
        &mut self,
        arrived: &Vec<PtyEvent>,
        wait: W,
    ) -> (r: (bool, Vec<u8>))
        requires
            old(self).wf(),
            call_requires(wait, ()),
            forall|i: int|
                0 <= i < outputs(arrived@).len() ==> old(self)@.core.screen.columns >= 2 || ascii(
                    #[trigger] outputs(arrived@)[i],
                ),
        ensures
            final(self).wf(),
            r.0 == (arrived@.len() > 0),
            arrived@.len() == 0 ==> *final(self) == *old(self) && r.1@.len() == 0,
            arrived@.len() > 0 ==> pumped_with(*old(self), *final(self), arrived@, wait, r.1@),
    {
        let n: usize = arrived.len();
        if n == 0 {
            return (false, Vec::new());
        }
        let ghost first = *self;
        let ghost mut cores: Seq<Backend> = seq![self.core];
        let ghost mut bytes: Seq<Seq<u8>> = Seq::empty();
        proof {
            self.core.lemma_wf_shape();
        }
        let mut i: usize = 0;
        let mut open = true;
        while i < n && open
            invariant
                i <= n == arrived@.len(),
                self.wf(),
                self@ == (SessionView { core: self.core@, ..first@ }),
                self.core@.screen.columns == first.core@.screen.columns,
                cores.len() == i + 1,
                bytes.len() == i,
                cores.first() == first.core,
                cores.last() == self.core,
                chained(cores, bytes),
                forall|k: int| 0 <= k < i ==> #[trigger] arrived@[k] is Output,
                forall|k: int|
                    0 <= k < i ==> #[trigger] bytes[k] == arrived@[k]->Output_0@,
                !open ==> i < n && !(arrived@[i as int] is Output),
                forall|k: int|
                    0 <= k < outputs(arrived@).len() ==> first.core@.screen.columns >= 2 || ascii(
                        #[trigger] outputs(arrived@)[k],
                    ),
            decreases
                n - i,
                if open {
                    1int
                } else {
                    0
                },
        {
            match &arrived[i] {
                PtyEvent::Output(b) => {
                    proof {
                        lemma_leading(arrived@, i as int);
                        assert(outputs(arrived@)[i as int] == b@);
                    }
                    let ghost before = self.core;
                    self.output(b.as_slice());
                    proof {
                        let had = cores;
                        let had_bytes = bytes;
                        cores = cores.push(self.core);
                        bytes = bytes.push(b@);
                        assert forall|k: int| 0 <= k < bytes.len() implies wrote(
                            cores[k],
                            cores[k + 1],
                            #[trigger] bytes[k],
                        ) by {
                            if k < had_bytes.len() {
                                assert(bytes[k] == had_bytes[k]);
                                assert(wrote(had[k], had[k + 1], had_bytes[k]));
                            }
                        }
                    }
                    i += 1;
                },
                _ => {
                    open = false;
                },
            }
        }
        proof {
            lemma_outputs(arrived@, i as int);
            assert(bytes =~= outputs(arrived@));
            assert(fed(first.core, self.core, outputs(arrived@)));
        }
        let ghost mid = self@;
        let mut status: Option<ExitStatus> = None;
        if i < n {
            match &arrived[i] {
                PtyEvent::Error(e) => {
                    let ghost had = told(self.events@);
                    self.events.push(
                        SessionEvent::Notification {
                            title: Some("Terminal error".to_owned()),
                            body: e.clone(),
                        },
                    );
                    assert(told(self.events@) =~= had.push(
                        SessionEventView::Notification {
                            title: Some("Terminal error"@),
                            body: e@,
                        },
                    ));
                },
                _ => {},
            }
            status = self.finish(wait);
        }
        assert(ended(arrived@) && first@.exited is None ==> call_ensures(wait, (), status));
        let ghost core = self.core;
        assert(self@ =~= with_end(first@, core@, arrived@, status));
        self.absorb_semantics();
        let ghost taken = self@;
        let replies = self.core.take_replies();
        if !self.pinned_to_history {
            self.scroll_to_bottom();
        }
        assert(pumped(*old(self), *self, arrived@, status, replies@)) by {
            assert(fed(first.terminal(), core, outputs(arrived@)));
            assert(took_in(with_end(first@, core@, arrived@, status), taken));
        }
        assert(pumped_with(*old(self), *self, arrived@, wait, replies@));
        (true, replies)
    }

    /// Brings the window back to the live end before what was typed is sent: a
    /// keystroke must not vanish from sight.
    pub fn write_input(&mut self)
        requires
            old(self).wf(),
        ensures
            final(self).wf(),
            came_down(*old(self), *final(self)),
    {
        self.scroll_to_bottom();
    }

    /// Takes on a size, unless it has it already, and says which one the child
    /// has to be told, if any.
    pub fn resize(&mut self, cols: u16, rows: u16) -> (size: Option<(u16, u16)>)
        requires
            old(self).wf(),
            cols >= 2 || (at_least_one(cols) == old(self)@.core.mirror.cols && at_least_one(rows)
                == old(self)@.core.mirror.rows.len()),
        ensures
            final(self).wf(),
            reshaped(old(self).terminal(), final(self).terminal(), cols, rows),
            final(self)@ == (SessionView { core: final(self).terminal()@, ..old(self)@ }),
            size == if at_least_one(cols) == old(self)@.core.mirror.cols && at_least_one(rows)
                == old(self)@.core.mirror.rows.len() {
                None
            } else {
                Some((at_least_one(cols), at_least_one(rows)))
            },
    {
        let c: u16 = if cols == 0 {
            1
        } else {
            cols
        };
        let r: u16 = if rows == 0 {
            1
        } else {
            rows
        };
        if c == self.cols && r == self.rows {
            return None;
        }
        self.core.resize(cols, rows);
        proof {
            self.core.lemma_wf_shape();
        }
        self.cols = c;
        self.rows = r;
        Some((c, r))
    }

    /// Moves the window that many lines up. Moving up holds it there when output
    /// comes.
    pub fn scroll(&mut self, delta: i32)
        requires
            old(self).wf(),
        ensures
            final(self).wf(),
            moved(old(self).terminal(), final(self).terminal(), delta as int),
            final(self)@ == (SessionView {
                core: final(self).terminal()@,
                pinned: delta > 0 || old(self)@.pinned,
                ..old(self)@
            }),
    {
        if delta == 0 {
            return;
        }
        proof {
            self.core.lemma_wf_shape();
        }
        self.core.scroll_viewport(delta);
        proof {
            self.core.lemma_wf_shape();
        }
        self.pinned_to_history = delta > 0 || self.pinned_to_history;
    }

    /// Brings the window back to the live end, if it was moved up.
    pub fn scroll_to_bottom(&mut self)
        requires
            old(self).wf(),
        ensures
            final(self).wf(),
            came_down(*old(self), *final(self)),
    {
        if self.pinned_to_history {
            proof {
                self.core.lemma_wf_shape();
            }
            let lines: usize = self.core.history_len();
            self.core.scroll_viewport(-(lines as i32));
            proof {
                self.core.lemma_wf_shape();
            }
        }
        self.pinned_to_history = false;
    }

    /// Hands out what the window has to be told.
    pub fn drain_events(&mut self) -> (events: Vec<SessionEvent>)
        requires
            old(self).wf(),
        ensures
            final(self).wf(),
            final(self).terminal() == old(self).terminal(),
            told(events@) == old(self)@.events,
            final(self)@ == (SessionView { events: Seq::empty(), ..old(self)@ }),
    {
        let mut events: Vec<SessionEvent> = Vec::new();
        std::mem::swap(&mut events, &mut self.events);
        assert(told(self.events@) =~= Seq::empty());
        events
    }

    /// The blocks, oldest first.
    pub fn blocks(&self) -> (blocks: &[Block])
        ensures
            block_views(blocks@) == self@.blocks.blocks,
    {
        self.blocks.blocks()
    }

    pub fn block_tracker_mut(&mut self) -> (t: &mut BlockTracker)
        requires
            old(self).wf(),
        ensures
            t@ == old(self)@.blocks,
            final(self).wf(),
            final(self).terminal() == old(self).terminal(),
            final(self)@ == (SessionView { blocks: final(t)@, ..old(self)@ }),
    {
        &mut self.blocks
    }

    pub fn cwd(&self) -> (cwd: Option<&str>)
        ensures
            match cwd {
                Some(s) => self@.blocks.cwd == Some(s@),
                None => self@.blocks.cwd is None,
            },
    {
        self.blocks.cwd()
    }

    pub fn dimensions(&self) -> (d: (u16, u16))
        requires
            self.wf(),
        ensures
            d.0 == self@.core.mirror.cols,
            d.1 == self@.core.mirror.rows.len(),
    {
        (self.cols, self.rows)
    }

    pub fn has_exited(&self) -> (yes: bool)
        ensures
            yes == self@.exited is Some,
    {
        self.exited.is_some()
    }

    /// The rows to draw, from the top.
    pub fn dirty_rows(&self) -> (rows: Vec<RowRef<'_>>)
        requires
            self.wf(),
        ensures
            forall|k: int|
                #![trigger rows@[k]]
                0 <= k < rows@.len() ==> {
                    let r = rows@[k];
                    &&& r.index < self@.core.mirror.rows.len()
                    &&& self@.core.mirror.dirty[r.index as int]
                    &&& r.cells@ == self@.core.mirror.rows[r.index as int]
                    &&& r.wrapped == self@.core.mirror.wrapped[r.index as int]
                },
            forall|j: int, k: int| 0 <= j < k < rows@.len() ==> rows@[j].index < rows@[k].index,
            forall|i: int|
                0 <= i < self@.core.mirror.rows.len() && #[trigger] self@.core.mirror.dirty[i]
                    ==> exists|k: int| 0 <= k < rows@.len() && #[trigger] rows@[k].index == i,
    {
        self.core.dirty_rows()
    }

    /// Whether there is anything to draw.
    pub fn has_damage(&self) -> (yes: bool)
        requires
            self.wf(),
        ensures
            yes == exists|r: int|
                0 <= r < self@.core.mirror.rows.len() && self@.core.mirror.dirty[r],
    {
        self.core.has_damage()
    }

    pub fn damage_all(&mut self)
        requires
            old(self).wf(),
        ensures
            final(self).wf(),
            final(self)@ == (SessionView {
                core: CoreView {
                    mirror: all_dirty(old(self)@.core.mirror),
                    ..old(self)@.core
                },
                ..old(self)@
            }),
    {
        self.core.damage_all();
    }

    pub fn clear_damage(&mut self)
        requires
            old(self).wf(),
        ensures
            final(self).wf(),
            final(self)@ == (SessionView {
                core: CoreView {
                    mirror: MirrorView {
                        dirty: Seq::new(old(self)@.core.mirror.rows.len(), |r: int| false),
                        ..old(self)@.core.mirror
                    },
                    ..old(self)@.core
                },
                ..old(self)@
            }),
    {
        self.core.clear_damage();
    }

    pub fn cursor(&self) -> (c: CursorState)
        requires
            self.wf(),
        ensures
            c == cursor_of(self@.core.screen),
    {
        self.core.cursor()
    }

    pub fn selection(&self) -> (s: Option<Selection>)
        requires
            self.wf(),
        ensures
            s == selection_of(self@.core.screen),
    {
        self.core.selection()
    }

    /// Selects, or selects nothing. What was selected and what is have to be
    /// drawn again.
    pub fn set_selection(&mut self, selection: Option<Selection>)
        requires
            old(self).wf(),
        ensures
            final(self).wf(),
            final(self)@ == (SessionView {
                core: selecting(old(self)@.core, selection),
                ..old(self)@
            }),
    {
        proof {
            self.core.lemma_wf_shape();
        }
        self.core.set_selection(selection);
        proof {
            self.core.lemma_wf_shape();
        }
    }

    /// What is selected, as text.
    pub fn selection_text(&self) -> (text: Option<String>)
        requires
            self.wf(),
        ensures
            text is Some <==> can_be_copied(self@.core.screen),
            text matches Some(s) ==> self.terminal().copied() == Some(s@),
    {
        self.core.selection_text()
    }

    pub fn side_tables(&self) -> (t: &SideTables)
        ensures
            *t == self.terminal().stored(),
    {
        self.core.side_tables()
    }

    /// The lines that there are, the first and the last.
    pub fn line_bounds(&self) -> (b: (i32, i32))
        requires
            self.wf(),
        ensures
            b.0 == -self@.core.screen.history,
            b.1 == self@.core.screen.lines - 1,
    {
        self.core.line_bounds()
    }

    /// The text of one line.
    pub fn line_text(&self, line: i32) -> (text: Option<String>)
        requires
            self.wf(),
        ensures
            text is Some <==> -self@.core.screen.history <= line < self@.core.screen.lines,
            text matches Some(s) ==> {
                let (from, to) = line_bounds_of(
                    self@.core.screen,
                    line as int,
                );
                s@ == if from <= to {
                    self.terminal().text_from((line, from as usize), (line, to as usize))
                } else {
                    Seq::empty()
                }
            },
    {
        self.core.line_text(line)
    }
}

/// What the child writes reaches the terminal as one stream, however it was cut
/// into pieces.
pub proof fn law_pieces_make_one_stream(a: Backend, b: Backend, bytes: Seq<Seq<u8>>)
    requires
        fed(a, b, bytes),
    ensures
        b@.stream == a@.stream + bytes.flatten(),
        b@.keeps == a@.keeps,
{
    let cores = choose|cores: Seq<Backend>| #[trigger]
        chained(cores, bytes) && cores.first() == a && cores.last() == b;
    lemma_chained_stream(cores, bytes);
}

proof fn lemma_chained_stream(cores: Seq<Backend>, bytes: Seq<Seq<u8>>)
    requires
        chained(cores, bytes),
    ensures
        cores.last()@.stream == cores.first()@.stream + bytes.flatten(),
        cores.last()@.keeps == cores.first()@.keeps,
    decreases bytes.len(),
{
    if bytes.len() > 0 {
        assert(wrote(cores[0], cores[1], bytes[0]));
        let rest = cores.drop_first();
        assert forall|i: int| 0 <= i < bytes.drop_first().len() implies wrote(
            rest[i],
            rest[i + 1],
            #[trigger] bytes.drop_first()[i],
        ) by {
            assert(bytes.drop_first()[i] == bytes[i + 1]);
        }
        lemma_chained_stream(rest, bytes.drop_first());
        assert(cores[1]@.stream =~= cores[0]@.stream + bytes[0]);
        assert(cores.first()@.stream + bytes.flatten() =~= cores[1]@.stream
            + bytes.drop_first().flatten());
    }
}

/// Where a block is recorded does not depend on how far the window is scrolled.
pub proof fn law_scrolling_moves_no_block(v: ScreenView, delta: int)
    ensures
        cursor_row(scrolled(v, delta)) == cursor_row(v),
{
}

/// Once the end was told with a status, no later event tells it again.
pub proof fn law_the_end_is_told_once(
    a: SessionView,
    core: CoreView,
    events: Seq<PtyEvent>,
    status: ExitStatus,
    later: Seq<PtyEvent>,
    other: Option<ExitStatus>,
    i: int,
)
    requires
        ended(events),
        0 <= i < announced(later, with_end(a, core, events, Some(status)).exited, other).len(),
    ensures
        !(announced(later, with_end(a, core, events, Some(status)).exited, other)[i] is Exited),
{
}

/// Whether a session turned into another by coming back to the live end.
pub open spec fn came_down(a: Session, b: Session) -> bool {
    if a@.pinned {
        &&& moved(
            a.terminal(),
            b.terminal(),
            -(a@.core.screen.history + a@.core.screen.lines),
        )
        &&& b@ == (SessionView { core: b.terminal()@, pinned: false, ..a@ })
        &&& b@.core.screen.offset == 0
    } else {
        &&& b.terminal() == a.terminal()
        &&& b@ == a@
    }
}

/// The first outputs count among those before the end.
proof fn lemma_leading(events: Seq<PtyEvent>, n: int)
    requires
        0 <= n < events.len(),
        forall|i: int| 0 <= i < n ==> #[trigger] events[i] is Output,
        events[n] is Output,
    ensures
        n < outputs_before_end(events) <= events.len(),
    decreases n,
{
    if n > 0 {
        assert(events[0] is Output);
        assert forall|i: int| 0 <= i < n - 1 implies #[trigger] events.skip(1)[i] is Output by {
            assert(events[i + 1] is Output);
        }
        lemma_leading(events.skip(1), n - 1);
    } else {
        lemma_outputs_bound(events.skip(1));
    }
}

proof fn lemma_outputs_bound(events: Seq<PtyEvent>)
    ensures
        0 <= outputs_before_end(events) <= events.len(),
    decreases events.len(),
{
    if events.len() > 0 && events[0] is Output {
        lemma_outputs_bound(events.skip(1));
    }
}

proof fn lemma_followed_extends(
    t: TrackerView,
    events: Seq<EventView>,
    row: u64,
    a: Seq<u64>,
    b: Seq<u64>,
    n: int,
)
    requires
        0 <= n <= a.len(),
        a.len() <= b.len(),
        forall|i: int| 0 <= i < n ==> a[i] == b[i],
    ensures
        followed(t, events, row, a, n) == followed(t, events, row, b, n),
    decreases n,
{
    if n > 0 {
        lemma_followed_extends(t, events, row, a, b, n - 1);
    }
}

/// The window is told of titles, directories, notifications, copied texts and
/// the bell as they were said, and of nothing else.
pub proof fn law_what_the_window_is_told(event: EventView)
    ensures
        event matches EventView::Title(t) ==> surfaced(event) == Some(
            SessionEventView::TitleChanged(t),
        ),
        event matches EventView::Cwd(p) ==> surfaced(event) == Some(
            SessionEventView::CwdChanged(p),
        ),
        event matches EventView::Notification { title, body } ==> surfaced(event) == Some(
            SessionEventView::Notification { title, body },
        ),
        event matches EventView::ClipboardWrite(t) ==> surfaced(event) == Some(
            SessionEventView::ClipboardWrite(t),
        ),
        event is Bell ==> surfaced(event) == Some(SessionEventView::Bell),
        !(event is Title) && !(event is Cwd) && !(event is Notification) && !(event
            is ClipboardWrite) && !(event is Bell) ==> surfaced(event) is None,
{
}

/// What is told keeps the order in which it was said.
pub proof fn law_news_keep_their_order(a: Seq<EventView>, b: Seq<EventView>, e: EventView)
    ensures
        surfaced_all(a + b, (a + b).len() as int) == surfaced_all(a, a.len() as int) + surfaced_all(
            b,
            b.len() as int,
        ),
        surfaced(e) matches Some(s) ==> surfaced_all(seq![e], 1) == seq![s],
        surfaced(e) is None ==> surfaced_all(seq![e], 1).len() == 0,
    decreases b.len(),
{
    assert(surfaced_all(seq![e], 0) =~= Seq::empty());
    if surfaced(e) is Some {
        assert(surfaced_all(seq![e], 1) =~= seq![surfaced(e)->0]);
    }
    if b.len() == 0 {
        assert(a + b =~= a);
        assert(surfaced_all(b, 0) =~= Seq::empty());
    } else {
        let rest = b.drop_last();
        law_news_keep_their_order(a, rest, e);
        let n = (a + b).len() as int;
        lemma_surfaced_start(a + b, a + rest, n - 1);
        lemma_surfaced_start(b, rest, b.len() - 1);
        assert((a + b)[n - 1] == b.last());
    }
}

proof fn lemma_surfaced_start(a: Seq<EventView>, b: Seq<EventView>, n: int)
    requires
        n <= a.len(),
        n <= b.len(),
        forall|i: int| 0 <= i < n ==> a[i] == b[i],
    ensures
        surfaced_all(a, n) == surfaced_all(b, n),
    decreases n,
{
    if n > 0 {
        lemma_surfaced_start(a, b, n - 1);
    }
}

/// What the child wrote is taken in up to the first sign that it closed the
/// terminal, in order; and that sign alone ends it.
pub proof fn law_output_is_read_up_to_the_end(events: Seq<PtyEvent>, i: int)
    requires
        0 <= i < events.len(),
    ensures
        (forall|k: int| 0 <= k <= i ==> #[trigger] events[k] is Output) ==> i < outputs(
            events,
        ).len() && outputs(events)[i] == events[i]->Output_0@,
        !(events[i] is Output) ==> ended(events) && outputs(events).len() <= i,
        ended(events) ==> exists|k: int|
            0 <= k < events.len() && !(#[trigger] events[k] is Output) && outputs(events).len() == k,
    decreases events.len(),
{
    lemma_outputs_bound(events);
    lemma_first_end(events);
    let n = outputs_before_end(events);
    if !(events[i] is Output) && n > i {
        assert(events[i] is Output);
    }
    if (forall|k: int| 0 <= k <= i ==> #[trigger] events[k] is Output) && n <= i {
        assert(events[n] is Output);
    }
}

proof fn lemma_first_end(events: Seq<PtyEvent>)
    ensures
        forall|k: int| 0 <= k < outputs_before_end(events) ==> #[trigger] events[k] is Output,
        outputs_before_end(events) < events.len() ==> !(events[outputs_before_end(events)]
            is Output),
    decreases events.len(),
{
    if events.len() > 0 && events[0] is Output {
        let rest = events.skip(1);
        lemma_first_end(rest);
        lemma_outputs_bound(rest);
        assert forall|k: int| 0 <= k < outputs_before_end(events) implies #[trigger] events[k]
            is Output by {
            if k > 0 {
                assert(rest[k - 1] is Output);
                assert(rest[k - 1] == events[k]);
            }
        }
        let n = outputs_before_end(rest);
        if n < rest.len() {
            assert(rest[n] == events[n + 1]);
        }
    }
}

/// A child that exited is reported with its code, one that a signal ended, or
/// whose status cannot be had, without; the failure of a read is told before
/// that. Nothing is reported while the terminal is open.
pub proof fn law_the_end_is_reported_with_its_code(
    a: SessionView,
    core: CoreView,
    events: Seq<PtyEvent>,
    status: Option<ExitStatus>,
)
    requires
        a.exited is None,
    ensures
        ({
            let said = announced(events, None, status);
            let b = with_end(a, core, events, status);
            &&& !ended(events) ==> said.len() == 0 && b.exited is None && b.events == a.events
            &&& ended(events) ==> {
                &&& b.exited == status
                &&& b.events == a.events + said
                &&& said.len() > 0
                &&& status matches Some(ExitStatus::Exited(c)) ==> said.last()
                    == SessionEventView::Exited(Some(c))
                &&& status matches Some(ExitStatus::Signaled(s)) ==> said.last()
                    == SessionEventView::Exited(None)
                &&& status is None ==> said.last() == SessionEventView::Exited(None)
                &&& events[outputs_before_end(events)] is Hangup ==> said.len() == 1
                &&& events[outputs_before_end(events)] matches PtyEvent::Error(e) ==> said.len() == 2
                    && said[0] == (SessionEventView::Notification {
                    title: Some("Terminal error"@),
                    body: e@,
                })
            }
            &&& b.core == core && b.blocks == a.blocks && b.pinned == a.pinned
        }),
{
    lemma_outputs_bound(events);
    lemma_first_end(events);
    let b = with_end(a, core, events, status);
    if !ended(events) {
        assert(b.events =~= a.events);
    }
}

/// Taking in the terminal's events tells the window behind what it was told
/// already, and leaves none to take in.
pub proof fn law_events_are_taken_in_once(a: SessionView, b: SessionView)
    requires
        took_in(a, b),
    ensures
        pending(b.core).len() == 0,
        a.events.is_prefix_of(b.events),
        b.core.screen == a.core.screen,
        b.core.mirror == a.core.mirror,
        b.core.sink.replies == a.core.sink.replies,
        b.exited == a.exited,
        b.pinned == a.pinned,
        a.core.sniffer.events.len() == 0 && a.core.sink.events.len() == 0 ==> b.events == a.events,
{
    assert(a.events =~= b.events.take(a.events.len() as int));
    if a.core.sniffer.events.len() == 0 && a.core.sink.events.len() == 0 {
        assert(b.events =~= a.events);
    }
}

/// A new session has a terminal of its size, at least one cell of it, keeps four
/// thousand and ninety-six blocks, and has nothing to tell.
pub proof fn law_a_session_starts_empty(settings: Settings, cols: u16, rows: u16, s: Session)
    requires
        settings.scrollback <= MAX_SCROLLBACK,
        call_ensures(Session::new, (&settings, cols, rows), s),
    ensures
        cols > 0 ==> s@.core.screen.columns == cols,
        cols == 0 ==> s@.core.screen.columns == 1,
        rows > 0 ==> s@.core.screen.lines == rows,
        rows == 0 ==> s@.core.screen.lines == 1,
        s@.core.keeps == settings.scrollback,
        s@.blocks.blocks.len() == 0,
        s@.blocks.capacity == 4096,
        s@.blocks.cwd is None,
        s@.events.len() == 0,
        s@.exited is None,
        !s@.pinned,
{
}

/// Events are taken up one after the other, each once, and only a prompt for
/// which there is no number left is passed over.
pub proof fn law_events_are_taken_up_in_order(
    t: TrackerView,
    events: Seq<EventView>,
    e: EventView,
    row: u64,
    times: Seq<u64>,
    now: u64,
)
    requires
        times.len() == events.len(),
    ensures
        followed(t, Seq::empty(), row, Seq::empty(), 0) == t,
        ({
            let before = followed(t, events, row, times, events.len() as int);
            let after = followed(
                t,
                events.push(e),
                row,
                times.push(now),
                events.len() as int + 1,
            );
            &&& !(e is PromptStart && before.next_id == u64::MAX) ==> after == track(
                before,
                e,
                row,
                now,
            )
            &&& e is PromptStart && before.next_id == u64::MAX ==> after == before
        }),
{
    let n = events.len() as int;
    lemma_followed_start(t, events.push(e), events, row, times.push(now), times, n);
    assert(events.push(e)[n] == e);
    assert(times.push(now)[n] == now);
}

proof fn lemma_followed_start(
    t: TrackerView,
    a: Seq<EventView>,
    b: Seq<EventView>,
    row: u64,
    s: Seq<u64>,
    u: Seq<u64>,
    n: int,
)
    requires
        n <= a.len() && n <= b.len() && n <= s.len() && n <= u.len(),
        forall|i: int| 0 <= i < n ==> a[i] == b[i],
        forall|i: int| 0 <= i < n ==> s[i] == u[i],
    ensures
        followed(t, a, row, s, n) == followed(t, b, row, u, n),
    decreases n,
{
    if n > 0 {
        lemma_followed_start(t, a, b, row, s, u, n - 1);
    }
}

/// Coming back to the live end shows the last lines and forgets that the window
/// was held; a window that was not held is left alone.
pub proof fn law_the_window_comes_back_down(a: Session, b: Session)
    requires
        came_down(a, b),
    ensures
        !b@.pinned,
        a@.pinned ==> b@.core.screen.offset == 0,
        !a@.pinned ==> b.terminal() == a.terminal(),
        b@.blocks == a@.blocks,
        b@.events == a@.events,
        b@.exited == a@.exited,
{
}

} // verus!
