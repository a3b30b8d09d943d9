use mica::caret::{
    blink_part, blink_step, distortion, has_wake, is_animating, landing, retarget, step, BlinkPart,
    BlinkStep, Distortion, Landing, Phase, Retarget, Step, Trail, MAX_TRAIL,
};
use mica::motion::{MotionSettings, MotionStyle};

fn with(style: MotionStyle) -> MotionSettings {
    MotionSettings { style, ..MotionSettings::default() }
}

fn reduced() -> MotionSettings {
    MotionSettings { reduce: true, ..with(MotionStyle::Spring) }
}

const NOWHERE: Phase = Phase { before_ramp: false, before_half: false, before_return: false };

#[test]
fn only_a_new_cell_sends_the_caret_off() {
    assert_eq!(retarget(true, &with(MotionStyle::Ease)), Retarget::Stay);
    assert_eq!(retarget(false, &with(MotionStyle::Ease)), Retarget::Fly);
    assert_eq!(retarget(false, &with(MotionStyle::Snap)), Retarget::Jump { fades: false });
    assert_eq!(retarget(false, &reduced()), Retarget::Jump { fades: true });
}

#[test]
fn every_style_has_its_own_way() {
    assert_eq!(step(&with(MotionStyle::Snap), false, false), Step::Arrive);
    assert_eq!(step(&with(MotionStyle::Spring), false, false), Step::Spring);
    assert_eq!(step(&with(MotionStyle::Arc), false, true), Step::Arc);
    assert_eq!(step(&with(MotionStyle::Smear), true, false), Step::Ease, "it overshot");
    assert_eq!(step(&with(MotionStyle::Ease), true, true), Step::Rest);
    assert_eq!(step(&reduced(), false, false), Step::Arrive);
}

#[test]
fn a_caret_lands_only_when_it_is_near_and_slow() {
    let ease = with(MotionStyle::Ease);
    assert_eq!(landing(&ease, true, true, true), Landing::Land);
    assert_eq!(landing(&ease, true, false, false), Landing::Count);
    assert_eq!(landing(&ease, false, true, true), Landing::Sample);
    let bare = MotionSettings { decay: false, ..ease };
    assert_eq!(landing(&bare, false, true, true), Landing::Go);
    assert!(has_wake(&ease));
    assert!(!has_wake(&bare));
    assert!(!has_wake(&reduced()));
}

#[test]
fn a_caret_on_its_way_does_not_blink() {
    let blinking = MotionSettings { blink: true, ..MotionSettings::default() };
    assert_eq!(blink_step(&blinking, false, false), BlinkStep::Hold);
    assert_eq!(blink_step(&blinking, true, true), BlinkStep::CountDown);
    assert_eq!(blink_step(&blinking, true, false), BlinkStep::Advance);
    assert_eq!(blink_step(&MotionSettings::default(), true, false), BlinkStep::Solid);
    assert_eq!(blink_part(&blinking, true, NOWHERE), BlinkPart::Shown);
    assert_eq!(blink_part(&MotionSettings::default(), false, NOWHERE), BlinkPart::Shown);
}

#[test]
fn a_blink_breathes_except_where_the_style_cuts() {
    let soft = MotionSettings { blink: true, ..with(MotionStyle::Ease) };
    let hard = MotionSettings { blink: true, ..with(MotionStyle::Snap) };
    let first = Phase { before_ramp: true, before_half: true, before_return: true };
    let ramp = Phase { before_ramp: false, before_half: true, before_return: true };
    let off = Phase { before_ramp: false, before_half: false, before_return: true };
    let parts = |m: &MotionSettings| {
        [first, ramp, off, NOWHERE].map(|phase| blink_part(m, false, phase))
    };
    assert_eq!(
        parts(&soft),
        [BlinkPart::Shown, BlinkPart::FadingOut, BlinkPart::Hidden, BlinkPart::FadingIn]
    );
    assert_eq!(
        parts(&hard),
        [BlinkPart::Shown, BlinkPart::Shown, BlinkPart::Hidden, BlinkPart::Hidden]
    );
}

#[test]
fn three_styles_distort_the_caret() {
    assert_eq!(distortion(&with(MotionStyle::Smear)), Distortion::Smear);
    assert_eq!(distortion(&with(MotionStyle::Phosphor)), Distortion::Glow);
    assert_eq!(distortion(&with(MotionStyle::Squash)), Distortion::Squash);
    assert_eq!(distortion(&with(MotionStyle::Arc)), Distortion::Plain);
    assert_eq!(distortion(&reduced()), Distortion::Plain);
}

#[test]
fn everything_but_the_blink_comes_to_rest() {
    let m = MotionSettings::default();
    assert!(is_animating(&m, false, 0, false));
    assert!(is_animating(&m, true, 1, false));
    assert!(is_animating(&m, true, 0, true));
    assert!(!is_animating(&m, true, 0, false));
    assert!(is_animating(&MotionSettings { blink: true, ..m }, true, 0, false));
}

#[test]
fn the_wake_forgets_its_oldest_sample() {
    let mut t = Trail::new();
    for i in 0..MAX_TRAIL + 3 {
        t.emit(i);
    }
    assert_eq!(t.len(), MAX_TRAIL);
    assert_eq!(t.samples()[0], 3);
    assert_eq!(t.samples()[MAX_TRAIL - 1], MAX_TRAIL + 2);
    t.clear();
    assert!(t.is_empty());
}

#[test]
fn samples_age_and_leave_from_the_front() {
    let mut t = Trail::new();
    for age in [8u32, 9, 3, 9] {
        t.emit(age);
    }
    t.advance(|age: &u32| age + 1, |age: &u32| *age >= 10);
    // The first that stays keeps what is behind it.
    assert_eq!(t.samples(), &[9, 10, 4, 10]);
    t.advance(|age: &u32| age + 1, |age: &u32| *age >= 10);
    assert_eq!(t.samples(), &[5, 11]);
}
