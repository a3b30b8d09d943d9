use mica::cell::Color;
use mica::material::{
    builtin, builtin_themes, Fraction, Material, Rgb, Role, ThemeError, DEFAULT_THEME,
};

fn luma(c: Rgb) -> f32 {
    c.luma() as f32 / 255000.0
}

fn slate() -> Material {
    Material::from_theme(&builtin(DEFAULT_THEME).unwrap()).unwrap()
}

#[test]
fn every_builtin_theme_parses() {
    for theme in builtin_themes() {
        Material::from_theme(&theme)
            .unwrap_or_else(|e| panic!("builtin theme {} is broken: {}", theme.id, e.message()));
    }
}

#[test]
fn rgb_parses_both_hex_forms() {
    assert_eq!(Rgb::parse("#ff8000"), Some(Rgb::new(255, 128, 0)));
    assert_eq!(Rgb::parse("#f80"), Some(Rgb::new(255, 136, 0)));
    assert_eq!(Rgb::parse("nope"), None);
    assert_eq!(Rgb::parse("#12345"), None);
}

#[test]
fn an_unparseable_colour_names_the_field_that_broke() {
    let mut theme = builtin(DEFAULT_THEME).unwrap();
    theme.error = "octarine".into();
    assert_eq!(
        Material::from_theme(&theme),
        Err(ThemeError::BadColor { field: "error", value: "octarine".into() })
    );
}

#[test]
fn ansi_red_is_the_themes_error_colour() {
    let m = slate();
    assert_eq!(m.palette(1), m.role(Role::Error));
    assert_eq!(m.palette(2), m.role(Role::Success));
    assert_eq!(m.palette(3), m.role(Role::Warning));
}

#[test]
fn the_colour_cube_is_not_themed() {
    // Applications compute these indices arithmetically; theming them
    // would break every 256-colour gradient in the wild.
    let m = slate();
    assert_eq!(m.palette(16), Rgb::new(0, 0, 0));
    assert_eq!(m.palette(231), Rgb::new(255, 255, 255));
    assert_eq!(m.palette(16 + 36 * 5), Rgb::new(255, 0, 0));
}

#[test]
fn default_colour_resolves_by_position_not_by_value() {
    let m = slate();
    assert_eq!(m.resolve(Color::theme_default(), Role::Foreground), m.role(Role::Foreground));
    assert_eq!(m.resolve(Color::theme_default(), Role::Background), m.role(Role::Background));
}

#[test]
fn a_true_colour_cell_ignores_the_theme_entirely() {
    let m = slate();
    assert_eq!(m.resolve(Color::rgb(1, 2, 3), Role::Foreground), Rgb::new(1, 2, 3));
}

#[test]
fn light_and_dark_themes_are_distinguished() {
    assert!(slate().is_dark());
    assert!(!Material::from_theme(&builtin("quartz").unwrap()).unwrap().is_dark());
}

#[test]
fn a_cross_fade_ends_exactly_on_the_target() {
    let a = slate();
    let b = Material::from_theme(&builtin("quartz").unwrap()).unwrap();
    assert_eq!(a.blend(&b, Fraction::one()).role(Role::Background), b.role(Role::Background));
    assert_eq!(a.blend(&b, Fraction::new(0, 1)).role(Role::Background), a.role(Role::Background));
    assert_eq!(a.blend(&b, Fraction::one()).id, b.id);
}

#[test]
fn the_greyscale_ramp_runs_between_this_themes_own_extremes() {
    let m = slate();
    let bg = m.role(Role::Background);
    let fg = m.role(Role::Foreground);
    // Darkest ramp entry sits near the background, lightest near the
    // foreground — never pure black on a warm background.
    assert!((luma(m.palette(232)) - luma(bg)).abs() < 0.1);
    assert!((luma(m.palette(255)) - luma(fg)).abs() < 0.1);
}
