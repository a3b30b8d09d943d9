//! Frame scheduling.
//!
//! A frame happens because something changed. There is no timer: every reason
//! to draw is an explicit [`Reason`], and while none arrives nothing is drawn.
//! An animation is a change too; it registers as one and withdraws when it
//! ends.

use vstd::prelude::*;

verus! {

/// Why a frame is wanted.
#[derive(Debug, Clone, Copy, PartialEq, Eq, Hash, Structural)]
pub enum Reason {
    /// Terminal rows changed.
    Damage,
    /// The window resized, or the backing scale changed.
    Resize,
    /// The caret moved, or its blink phase flipped.
    Cursor,
    /// An overlay opened, closed or changed.
    Overlay,
    /// Selection changed.
    Selection,
    /// A running animation.
    Animation,
    /// The window gained or lost focus.
    Focus,
    /// The atlas grew and its textures must be uploaded again.
    Atlas,
}

#[derive(Debug, Clone, Copy, PartialEq, Eq, Structural)]
pub enum Decision {
    /// Draw now.
    Draw,
    /// Nothing to do: submit nothing.
    Idle,
    /// Something changed, but too many frames are in flight. Try again when one
    /// completes.
    Throttled,
}

/// Counters.
#[derive(Debug, Clone, Copy, PartialEq, Eq, Structural)]
pub struct FrameStats {
    /// Frames actually submitted.
    pub submitted: u64,
    /// Times that a poll was answered [`Decision::Idle`].
    pub idle_polls: u64,
    pub throttled: u64,
    pub dropped: u64,
}

impl Default for FrameStats {
    fn default() -> (s: FrameStats)
        ensures
            s == (FrameStats { submitted: 0, idle_polls: 0, throttled: 0, dropped: 0 }),
    {
        FrameStats { submitted: 0, idle_polls: 0, throttled: 0, dropped: 0 }
    }
}

/// Decides whether to draw.
#[derive(Debug)]
pub struct FrameScheduler {
    dirty: Option<Reason>,
    in_flight: u32,
    max_in_flight: u32,
    /// How many animations run. While any does, every completed frame asks for
    /// the next.
    animations: u32,
    /// 0 follows the display; anything else caps the frames per second.
    frame_cap: u16,
    stats: FrameStats,
}

/// What a scheduler knows.
pub struct SchedulerView {
    pub dirty: Option<Reason>,
    pub in_flight: u32,
    pub max_in_flight: u32,
    pub animations: u32,
    pub frame_cap: u16,
    pub stats: FrameStats,
}

impl View for FrameScheduler {
    type V = SchedulerView;

    closed spec fn view(&self) -> SchedulerView {
        SchedulerView {
            dirty: self.dirty,
            in_flight: self.in_flight,
            max_in_flight: self.max_in_flight,
            animations: self.animations,
            frame_cap: self.frame_cap,
            stats: self.stats,
        }
    }
}

/// A scheduler to which nothing has happened.
pub open spec fn idle_scheduler(max_in_flight: u32) -> SchedulerView {
    SchedulerView {
        dirty: None,
        in_flight: 0,
        max_in_flight: if max_in_flight < 1 {
            1
        } else {
            max_in_flight
        },
        animations: 0,
        frame_cap: 0,
        stats: FrameStats { submitted: 0, idle_polls: 0, throttled: 0, dropped: 0 },
    }
}

/// After a request: the first reason stands.
pub open spec fn requested(s: SchedulerView, reason: Reason) -> SchedulerView {
    SchedulerView {
        dirty: if s.dirty is None {
            Some(reason)
        } else {
            s.dirty
        },
        ..s
    }
}

/// What a poll answers.
pub open spec fn decision(s: SchedulerView) -> Decision {
    if s.dirty is None {
        Decision::Idle
    } else if s.in_flight >= s.max_in_flight {
        Decision::Throttled
    } else {
        Decision::Draw
    }
}

/// After a poll: nothing but the counters.
pub open spec fn polled(s: SchedulerView) -> SchedulerView {
    SchedulerView {
        stats: match decision(s) {
            Decision::Idle => FrameStats {
                idle_polls: (s.stats.idle_polls + 1) as u64,
                ..s.stats
            },
            Decision::Throttled => FrameStats {
                throttled: (s.stats.throttled + 1) as u64,
                ..s.stats
            },
            Decision::Draw => s.stats,
        },
        ..s
    }
}

/// After a frame was submitted.
pub open spec fn begun(s: SchedulerView) -> SchedulerView {
    SchedulerView {
        dirty: None,
        in_flight: (s.in_flight + 1) as u32,
        stats: FrameStats { submitted: (s.stats.submitted + 1) as u64, ..s.stats },
        ..s
    }
}

/// After a frame completed. A running animation asks for the next one.
pub open spec fn ended(s: SchedulerView) -> SchedulerView {
    let done = SchedulerView {
        in_flight: if s.in_flight == 0 {
            0
        } else {
            (s.in_flight - 1) as u32
        },
        ..s
    };
    if s.animations > 0 {
        requested(done, Reason::Animation)
    } else {
        done
    }
}

/// After an animation started, which wants a frame.
pub open spec fn moving(s: SchedulerView) -> SchedulerView {
    requested(SchedulerView { animations: (s.animations + 1) as u32, ..s }, Reason::Animation)
}

/// After an animation stopped, where one ran.
pub open spec fn stilled(s: SchedulerView) -> SchedulerView {
    SchedulerView {
        animations: if s.animations == 0 {
            0
        } else {
            (s.animations - 1) as u32
        },
        ..s
    }
}

/// Polling `n` times.
pub open spec fn polled_times(s: SchedulerView, n: nat) -> SchedulerView
    decreases n,
{
    if n == 0 {
        s
    } else {
        polled(polled_times(s, (n - 1) as nat))
    }
}

/// However often an idle terminal is polled, it stays idle and submits nothing.
pub proof fn law_idle_submits_nothing(s: SchedulerView, n: nat)
    requires
        s.dirty is None,
    ensures
        polled_times(s, n).dirty is None,
        polled_times(s, n).stats.submitted == s.stats.submitted,
        decision(polled_times(s, n)) is Idle,
    decreases n,
{
    if n > 0 {
        law_idle_submits_nothing(s, (n - 1) as nat);
    }
}

/// Any number of changes before a frame make one frame: once it is submitted,
/// nothing is owed until something else changes.
pub proof fn law_changes_coalesce(s: SchedulerView, a: Reason, b: Reason)
    ensures
        requested(requested(s, a), b) == requested(s, a),
        decision(begun(requested(s, a))) is Idle,
{
}

/// While an animation runs every completed frame asks for another; once the
/// last one has stopped, a completed frame leaves the terminal silent.
pub proof fn law_animation_sustains_itself(s: SchedulerView)
    ensures
        s.animations > 0 ==> ended(begun(s)).dirty == Some(Reason::Animation),
        s.animations == 0 ==> ended(begun(s)).dirty is None && decision(ended(begun(s))) is Idle,
{
}

/// No more frames are ever in flight than there are drawables, where a frame is
/// begun only when a poll said so.
pub proof fn law_frames_in_flight_are_bounded(s: SchedulerView)
    requires
        s.in_flight <= s.max_in_flight,
        decision(s) is Draw,
    ensures
        begun(s).in_flight <= s.max_in_flight,
        ended(s).in_flight <= s.max_in_flight,
{
}

impl FrameScheduler {
    /// `max_in_flight` is how many drawables there are.
    pub fn new(max_in_flight: u32) -> (s: FrameScheduler)
        ensures
            s@ == idle_scheduler(max_in_flight),
    {
        FrameScheduler {
            dirty: None,
            in_flight: 0,
            max_in_flight: if max_in_flight < 1 {
                1
            } else {
                max_in_flight
            },
            animations: 0,
            frame_cap: 0,
            stats: FrameStats { submitted: 0, idle_polls: 0, throttled: 0, dropped: 0 },
        }
    }

    pub fn set_frame_cap(&mut self, cap: u16)
        ensures
            final(self)@ == (SchedulerView { frame_cap: cap, ..old(self)@ }),
    {
        self.frame_cap = cap;
    }

    /// The least time between two frames in nanoseconds, if a cap is set: the
    /// nearest to a second divided by the cap, an even number where two are
    /// equally near.
    pub fn min_interval(&self) -> (nanos: Option<u64>)
        ensures
            nanos is Some <==> self@.frame_cap > 0,
            nanos matches Some(n) ==> ({
                let cap = self@.frame_cap as int;
                let off = n * cap - 1_000_000_000;
                &&& -cap <= 2 * off <= cap
                &&& 2 * off == cap || 2 * off == -cap ==> n % 2 == 0
            }),
    {
        if self.frame_cap == 0 {
            return None;
        }
        let cap: u64 = self.frame_cap as u64;
        let whole: u64 = 1_000_000_000 / cap;
        let rest: u64 = 1_000_000_000 % cap;
        proof {
            assert(1_000_000_000 == whole * cap + rest) by {
                vstd::arithmetic::div_mod::lemma_fundamental_div_mod(1_000_000_000, cap as int);
                assert(cap * whole == whole * cap) by (nonlinear_arith);
            }
            assert((whole + 1) * cap == whole * cap + cap) by (nonlinear_arith);
        }
        if 2 * rest > cap || (2 * rest == cap && whole % 2 == 1) {
            Some(whole + 1)
        } else {
            Some(whole)
        }
    }

    /// Registers a reason to draw. The first one stands until a frame is begun.
    pub fn request(&mut self, reason: Reason)
        ensures
            final(self)@ == requested(old(self)@, reason),
    {
        if self.dirty.is_none() {
            self.dirty = Some(reason);
        }
    }

    pub fn pending_reason(&self) -> (r: Option<Reason>)
        ensures
            r == self@.dirty,
    {
        self.dirty
    }

    pub fn is_dirty(&self) -> (yes: bool)
        ensures
            yes == (self@.dirty is Some),
    {
        self.dirty.is_some()
    }

    /// Starts an animation, which keeps frames coming until it is stopped.
    pub fn begin_animation(&mut self)
        requires
            old(self)@.animations < u32::MAX,
        ensures
            final(self)@ == requested(
                SchedulerView {
                    animations: (old(self)@.animations + 1) as u32,
                    ..old(self)@
                },
                Reason::Animation,
            ),
            final(self)@ == moving(old(self)@),
    {
        self.animations = self.animations + 1;
        self.request(Reason::Animation);
    }

    /// Ends one animation.
    pub fn end_animation(&mut self)
        ensures
            final(self)@ == (SchedulerView {
                animations: if old(self)@.animations == 0 {
                    0
                } else {
                    (old(self)@.animations - 1) as u32
                },
                ..old(self)@
            }),
            final(self)@ == stilled(old(self)@),
    {
        self.animations = self.animations.saturating_sub(1);
    }

    pub fn animations(&self) -> (n: u32)
        ensures
            n == self@.animations,
    {
        self.animations
    }

    pub fn in_flight(&self) -> (n: u32)
        ensures
            n == self@.in_flight,
    {
        self.in_flight
    }

    pub fn stats(&self) -> (s: FrameStats)
        ensures
            s == self@.stats,
    {
        self.stats
    }

    /// Asks whether to draw. Polling an idle terminal costs and submits
    /// nothing.
    pub fn poll(&mut self) -> (d: Decision)
        requires
            old(self)@.stats.idle_polls < u64::MAX,
            old(self)@.stats.throttled < u64::MAX,
        ensures
            d == decision(old(self)@),
            final(self)@ == polled(old(self)@),
    {
        if self.dirty.is_none() {
            self.stats.idle_polls = self.stats.idle_polls + 1;
            return Decision::Idle;
        }
        if self.in_flight >= self.max_in_flight {
            self.stats.throttled = self.stats.throttled + 1;
            return Decision::Throttled;
        }
        Decision::Draw
    }

    /// Called just before a frame is submitted. There must be something to
    /// draw.
    pub fn begin_frame(&mut self)
        requires
            old(self)@.dirty is Some,
            old(self)@.in_flight < u32::MAX,
            old(self)@.stats.submitted < u64::MAX,
        ensures
            final(self)@ == begun(old(self)@),
    {
        self.dirty = None;
        self.in_flight = self.in_flight + 1;
        self.stats.submitted = self.stats.submitted + 1;
    }

    /// Called when a frame has completed.
    pub fn end_frame(&mut self)
        ensures
            final(self)@ == ended(old(self)@),
    {
        self.in_flight = self.in_flight.saturating_sub(1);
        if self.animations > 0 {
            self.request(Reason::Animation);
        }
    }

    /// Called when nothing could be drawn into. The frame is still owed.
    pub fn drop_frame(&mut self, reason: Reason)
        requires
            old(self)@.stats.dropped < u64::MAX,
        ensures
            final(self)@ == requested(
                SchedulerView {
                    stats: FrameStats {
                        dropped: (old(self)@.stats.dropped + 1) as u64,
                        ..old(self)@.stats
                    },
                    ..old(self)@
                },
                reason,
            ),
    {
        self.stats.dropped = self.stats.dropped + 1;
        self.request(reason);
    }
}

impl Default for FrameScheduler {
    fn default() -> (s: FrameScheduler)
        ensures
            s@ == idle_scheduler(2),
    {
        FrameScheduler::new(2)
    }
}

/// A frame is drawn exactly where something changed and a drawable is free. It
/// waits where something changed and none is.
pub proof fn law_frames_are_drawn_for_a_reason(s: SchedulerView)
    ensures
        decision(s) is Draw <==> s.dirty is Some && s.in_flight < s.max_in_flight,
        decision(s) is Throttled <==> s.dirty is Some && s.in_flight >= s.max_in_flight,
        decision(s) is Idle <==> s.dirty is None,
{
}

/// A poll counts itself and changes nothing else.
pub proof fn law_polls_only_count(s: SchedulerView)
    requires
        s.stats.idle_polls < u64::MAX,
        s.stats.throttled < u64::MAX,
    ensures
        polled(s).dirty == s.dirty,
        polled(s).in_flight == s.in_flight,
        polled(s).max_in_flight == s.max_in_flight,
        polled(s).animations == s.animations,
        polled(s).frame_cap == s.frame_cap,
        polled(s).stats.submitted == s.stats.submitted,
        polled(s).stats.dropped == s.stats.dropped,
        polled(s).stats.idle_polls == s.stats.idle_polls + if s.dirty is None {
            1int
        } else {
            0
        },
        polled(s).stats.throttled == s.stats.throttled + if s.dirty is Some && s.in_flight
            >= s.max_in_flight {
            1int
        } else {
            0
        },
{
}

/// A frame that is submitted takes a drawable and counts once, and gives the
/// drawable back when it is done. A reason that comes meanwhile is kept.
pub proof fn law_a_frame_takes_a_drawable(s: SchedulerView, reason: Reason)
    requires
        s.in_flight < u32::MAX,
        s.stats.submitted < u64::MAX,
    ensures
        begun(s).in_flight == s.in_flight + 1,
        begun(s).stats.submitted == s.stats.submitted + 1,
        begun(s).dirty is None,
        begun(s).animations == s.animations,
        begun(s).max_in_flight == s.max_in_flight,
        ended(begun(s)).in_flight == s.in_flight,
        ended(begun(s)).stats == begun(s).stats,
        ended(requested(begun(s), reason)).dirty == Some(reason),
        s.in_flight == 0 ==> ended(s).in_flight == 0,
{
}

/// A change that had to wait is drawn once a frame completes.
pub proof fn law_a_waiting_change_is_drawn(s: SchedulerView)
    requires
        s.dirty is Some,
        1 <= s.max_in_flight,
        s.in_flight == s.max_in_flight,
    ensures
        decision(s) is Throttled,
        decision(ended(s)) is Draw,
        ended(s).dirty == s.dirty,
{
}

/// The first of several reasons is the one that stands, and asking changes
/// nothing else.
pub proof fn law_the_first_reason_stands(s: SchedulerView, a: Reason, b: Reason)
    requires
        s.dirty is None,
    ensures
        requested(s, a).dirty == Some(a),
        requested(requested(s, a), b).dirty == Some(a),
        requested(s, a).in_flight == s.in_flight,
        requested(s, a).animations == s.animations,
        requested(s, a).stats == s.stats,
{
}

/// A scheduler starts with nothing to draw, nothing in flight and at least one
/// drawable; the ordinary one has two.
pub proof fn law_schedulers_start_idle(n: u32, s: FrameScheduler)
    requires
        call_ensures(FrameScheduler::new, (n,), s),
    ensures
        s@.dirty is None,
        s@.in_flight == 0,
        s@.animations == 0,
        s@.frame_cap == 0,
        n >= 1 ==> s@.max_in_flight == n,
        n == 0 ==> s@.max_in_flight == 1,
        decision(s@) is Idle,
{
}

/// An animation that starts counts once and wants a frame; when it stops it no
/// longer counts, and what was asked for is still owed.
pub proof fn law_animations_are_counted(s: SchedulerView)
    requires
        s.animations < u32::MAX,
    ensures
        moving(s).animations == s.animations + 1,
        moving(s).dirty is Some,
        s.dirty is None ==> moving(s).dirty == Some(Reason::Animation),
        s.dirty is Some ==> moving(s).dirty == s.dirty,
        stilled(moving(s)).animations == s.animations,
        stilled(moving(s)).dirty == moving(s).dirty,
        s.animations == 0 ==> stilled(s) == s,
        moving(s).in_flight == s.in_flight && stilled(s).in_flight == s.in_flight,
        moving(s).stats == s.stats && stilled(s).stats == s.stats,
{
}

} // verus!
