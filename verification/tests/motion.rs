use mica::motion::{MotionSettings, MotionStyle, Single, REDUCED_FADE};

fn single(v: f32) -> Single {
    Single::new(v.to_bits())
}

fn value(s: Single) -> f32 {
    f32::from_bits(s.bits)
}

#[test]
fn settings_are_clamped_into_ranges_the_integrators_survive() {
    let broken = MotionSettings {
        speed: single(0.0),
        intensity: single(40.0),
        ..MotionSettings::default()
    }
    .sanitised();
    assert!(value(broken.speed) >= 0.25, "speed 0 is a caret that never arrives");
    assert_eq!(value(broken.intensity), 1.0);

    let nonsense = MotionSettings {
        speed: single(f32::NAN),
        intensity: single(f32::INFINITY),
        ..MotionSettings::default()
    }
    .sanitised();
    assert!(value(nonsense.speed).is_finite() && value(nonsense.intensity).is_finite());
}

#[test]
fn style_ids_round_trip_and_are_all_distinct() {
    // The ids go in a TOML file and in palette action names, so they are a
    // public contract.
    let mut seen = std::collections::HashSet::new();
    for style in MotionStyle::all() {
        assert!(seen.insert(style.id()), "duplicate id {}", style.id());
        assert_eq!(MotionStyle::from_id(style.id()), Some(style));
    }
    assert_eq!(MotionStyle::from_id("nonexistent"), None);
    assert_eq!(MotionStyle::all().len(), 7, "the page promises seven styles");
}

#[test]
fn a_clamp_agrees_with_the_machine_on_every_kind_of_number() {
    let values = [
        0.0f32, -0.0, 0.1, 0.25, 0.7, 1.0, 1.5, 4.0, 99.0, -1.0, -99.0, f32::MAX, f32::MIN,
        f32::MIN_POSITIVE, f32::INFINITY, f32::NEG_INFINITY,
    ];
    for v in values {
        for (low, high) in [(0.25f32, 4.0f32), (0.0, 1.0), (0.0, 2.0), (6.0, 72.0)] {
            let held = single(v).clamp(single(low), single(high));
            assert_eq!(held.bits, v.clamp(low, high).to_bits(), "{v} in {low}..{high}");
        }
        assert_eq!(single(v).is_finite(), v.is_finite(), "{v}");
        for w in values {
            assert_eq!(single(v).equals(single(w)), v == w, "{v} == {w}");
        }
    }
    let nan = single(f32::NAN);
    assert!(!nan.is_finite());
    assert!(!nan.equals(nan));
}

#[test]
fn reduced_motion_leaves_no_style_but_the_plain_one() {
    let reduced = MotionSettings { reduce: true, ..MotionSettings::default() };
    assert_eq!(reduced.effective_style(), MotionStyle::Snap);
    assert_eq!(MotionSettings::default().effective_style(), MotionStyle::Ease);
    assert_eq!(REDUCED_FADE, 90);
}

#[test]
fn every_style_but_the_instant_one_interpolates() {
    for style in MotionStyle::all() {
        assert_eq!(style.interpolates(), style != MotionStyle::Snap, "{}", style.label());
    }
}
