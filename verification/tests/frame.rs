use mica::frame::{Decision, FrameScheduler, Reason};
use std::time::Duration;

#[test]
fn a_fresh_scheduler_is_idle() {
    let mut s = FrameScheduler::default();
    assert_eq!(s.poll(), Decision::Idle);
    assert!(!s.is_dirty());
}

#[test]
fn an_idle_terminal_submits_nothing_no_matter_how_often_it_is_polled() {
    // The single most important test in the project. Ten seconds at 120 Hz
    // is 1200 polls; every one of them must decline to draw.
    let mut s = FrameScheduler::default();
    for _ in 0..1200 {
        assert_eq!(s.poll(), Decision::Idle);
    }
    assert_eq!(s.stats().submitted, 0, "an idle window submitted a command buffer");
    assert_eq!(s.stats().idle_polls, 1200);
}

#[test]
fn damage_produces_exactly_one_frame() {
    let mut s = FrameScheduler::default();
    s.request(Reason::Damage);
    assert_eq!(s.poll(), Decision::Draw);
    s.begin_frame();
    s.end_frame();

    assert_eq!(s.stats().submitted, 1);
    assert_eq!(s.poll(), Decision::Idle, "one change must not produce two frames");
}

#[test]
fn many_damaged_rows_still_produce_one_frame() {
    let mut s = FrameScheduler::default();
    for _ in 0..500 {
        s.request(Reason::Damage);
    }
    assert_eq!(s.poll(), Decision::Draw);
    s.begin_frame();
    s.end_frame();
    assert_eq!(s.stats().submitted, 1);
}

#[test]
fn the_first_reason_is_the_one_reported() {
    // So that "why is this window redrawing?" has an answer that points at
    // the cause rather than at whatever arrived most recently.
    let mut s = FrameScheduler::default();
    s.request(Reason::Damage);
    s.request(Reason::Cursor);
    assert_eq!(s.pending_reason(), Some(Reason::Damage));
}

#[test]
fn frames_are_throttled_rather_than_queued_without_bound() {
    let mut s = FrameScheduler::new(2);
    s.request(Reason::Damage);
    assert_eq!(s.poll(), Decision::Draw);
    s.begin_frame();

    s.request(Reason::Damage);
    assert_eq!(s.poll(), Decision::Draw);
    s.begin_frame();

    s.request(Reason::Damage);
    assert_eq!(s.poll(), Decision::Throttled, "a third frame must wait for a drawable");
    assert_eq!(s.stats().submitted, 2);

    s.end_frame();
    assert_eq!(s.poll(), Decision::Draw, "a completed frame must free the slot");
}

#[test]
fn an_animation_sustains_itself_and_then_stops_completely() {
    let mut s = FrameScheduler::default();
    s.begin_animation();

    // Ten frames of animation, each re-armed by the previous completion.
    for _ in 0..10 {
        assert_eq!(s.poll(), Decision::Draw);
        s.begin_frame();
        s.end_frame();
    }
    assert_eq!(s.stats().submitted, 10);

    s.end_animation();
    // The frame in flight at the moment the animation ended may still
    // re-arm once; after that the terminal must go silent.
    while s.poll() == Decision::Draw {
        s.begin_frame();
        s.end_frame();
    }
    let after = s.stats().submitted;
    for _ in 0..1000 {
        assert_eq!(s.poll(), Decision::Idle);
    }
    assert_eq!(s.stats().submitted, after, "the animation kept drawing after it ended");
}

#[test]
fn overlapping_animations_each_have_to_end() {
    // A boolean would let whichever finished first switch the other off.
    let mut s = FrameScheduler::default();
    s.begin_animation();
    s.begin_animation();
    assert_eq!(s.animations(), 2);

    s.end_animation();
    assert_eq!(s.animations(), 1);
    s.begin_frame();
    s.end_frame();
    assert_eq!(s.poll(), Decision::Draw, "the second animation still wants frames");

    s.end_animation();
    s.begin_frame();
    s.end_frame();
    while s.poll() == Decision::Draw {
        s.begin_frame();
        s.end_frame();
    }
    assert_eq!(s.poll(), Decision::Idle);
}

#[test]
fn ending_more_animations_than_were_started_does_not_underflow() {
    let mut s = FrameScheduler::default();
    s.end_animation();
    s.end_animation();
    assert_eq!(s.animations(), 0);
}

#[test]
fn a_dropped_frame_is_owed_rather_than_lost() {
    let mut s = FrameScheduler::default();
    s.request(Reason::Damage);
    assert_eq!(s.poll(), Decision::Draw);
    s.begin_frame();
    // No drawable was available; the frame never reached the GPU.
    s.drop_frame(Reason::Damage);
    s.end_frame();

    assert_eq!(s.poll(), Decision::Draw, "the dropped frame was never redrawn");
    assert_eq!(s.stats().dropped, 1);
}

#[test]
fn a_frame_cap_implies_a_minimum_interval_and_no_cap_implies_none() {
    let mut s = FrameScheduler::default();
    assert_eq!(s.min_interval(), None, "0 must mean follow the display");
    s.set_frame_cap(30);
    assert_eq!(s.min_interval().map(Duration::from_nanos), Some(Duration::from_secs_f64(1.0 / 30.0)));
}

#[test]
fn every_reason_can_wake_the_renderer() {
    for reason in [
        Reason::Damage,
        Reason::Resize,
        Reason::Cursor,
        Reason::Overlay,
        Reason::Selection,
        Reason::Animation,
        Reason::Focus,
        Reason::Atlas,
    ] {
        let mut s = FrameScheduler::default();
        s.request(reason);
        assert_eq!(s.poll(), Decision::Draw, "{reason:?} did not schedule a frame");
    }
}
