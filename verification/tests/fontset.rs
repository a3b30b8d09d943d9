use mica::fontset::{
    candidates, default_stack, face, family_matches, glyph_for, glyph_id, resolve, CellMetrics,
    Style, FACES, LAST_RESORT,
};

/// A system that has a few families and gives another one for the rest.
fn system(name: &str) -> String {
    match name {
        "Menlo" => "Menlo".to_owned(),
        "SF Mono" => "SFMono".to_owned(),
        _ => "Helvetica".to_owned(),
    }
}

#[test]
fn menlo_always_resolves_so_the_terminal_always_starts() {
    assert!(resolve("Menlo", system).contains(&"Menlo".to_owned()));
    assert_eq!(LAST_RESORT, "Menlo");
}

#[test]
fn a_missing_family_does_not_silently_become_helvetica() {
    // The system substitutes rather than failing, which would let a typo in
    // the settings quietly break the grid.
    assert!(!family_matches("Definitely Not An Installed Font", "Helvetica"));
    assert!(!resolve("Definitely Not An Installed Font", system)
        .contains(&"Definitely Not An Installed Font".to_owned()));
}

#[test]
fn an_unknown_preference_falls_through_to_the_stack() {
    let found = resolve("No Such Font At All", system);
    assert!(
        default_stack().contains(&found[0]),
        "fell back to {:?}, which is not in the stack",
        found[0]
    );
    assert_eq!(found, vec!["SF Mono".to_owned(), "Menlo".to_owned()]);
}

#[test]
fn a_family_is_the_same_whatever_its_case_and_spaces() {
    assert!(family_matches("JetBrains Mono", "jetbrains mono"));
    assert!(family_matches("SF Mono", "SFMono"));
    assert!(!family_matches("SF Mono", "SF Pro"));
}

#[test]
fn the_preference_comes_first_and_an_empty_one_not_at_all() {
    assert_eq!(candidates("Iosevka")[0], "Iosevka");
    assert_eq!(candidates(""), default_stack());
}

#[test]
fn a_preference_in_the_stack_is_found_once() {
    let found = resolve("Menlo", system);
    assert_eq!(found, vec!["Menlo".to_owned(), "SF Mono".to_owned()]);
}

#[test]
fn metrics_are_positive_and_self_consistent() {
    let m = CellMetrics::measured(8, 16, 12, 8);
    assert!(m.width > 0 && m.height > 0);
    assert!(m.baseline > 0 && m.baseline <= m.height, "baseline {m:?} escapes the cell");
    assert!(m.underline_thickness >= 1);
    assert!((m.underline_position as u16) < m.height, "underline sits outside the cell");
    assert_eq!((m.underline_position, m.underline_thickness), (13, 1));
}

#[test]
fn ascii_resolves_in_the_text_stack() {
    for ch in "AZaz09 #@".chars() {
        let found = glyph_for(Style::regular(), 2, |_| glyph_id(true, ch as u16));
        assert_eq!(found, Some((0, ch as u16)), "{ch:?} has no glyph");
    }
}

#[test]
fn emoji_do_not_resolve_in_the_text_stack() {
    // This is the mechanism that routes emoji to the colour path instead of
    // drawing a fallback box.
    assert!(glyph_for(Style::regular(), 3, |_| glyph_id(false, 0)).is_none());
    assert!(glyph_for(Style::regular(), 3, |_| glyph_id(true, 0)).is_none());
}

#[test]
fn every_face_is_available_even_when_a_family_lacks_one() {
    for (style, expected) in [
        (Style::regular(), 0),
        (Style::new(true, false), 1),
        (Style::new(false, true), 2),
        (Style::new(true, true), 3),
    ] {
        assert_eq!(face(style), expected);
        assert!(face(style) < FACES);
        assert!(glyph_for(style, 0, |_| Some(5)).is_some(), "{style:?} cannot draw an A");
    }
}

#[test]
fn the_first_font_behind_the_family_that_has_a_glyph_draws_it() {
    let found = glyph_for(Style::new(true, false), 3, |font| if font >= FACES + 1 { Some(9) } else { None });
    assert_eq!(found, Some((FACES + 1, 9)));
}
