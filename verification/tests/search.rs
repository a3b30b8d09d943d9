use mica::search::Search;

const CORPUS: &[(i32, &str)] = &[
    (-2, "error: could not compile mica-core"),
    (-1, "warning: unused import"),
    (0, "$ cargo build"),
    (1, "   Compiling mica-gpu v0.1.0"),
    (2, "error[E0308]: mismatched types"),
];

fn search(query: &str) -> Search {
    let mut s = Search::new();
    s.run(query, CORPUS);
    s
}

#[test]
fn an_empty_query_matches_nothing_rather_than_everything() {
    let s = search("");
    assert!(s.is_empty());
    assert_eq!(s.position(), None);
}

#[test]
fn a_literal_query_finds_every_occurrence_in_line_order() {
    let s = search("error");
    assert_eq!(s.len(), 2);
    assert_eq!(s.matches()[0].line, -2);
    assert_eq!(s.matches()[1].line, 2);
    assert_eq!(s.matches()[0].columns(), 0..5);
}

#[test]
fn a_lowercase_query_is_case_insensitive() {
    assert_eq!(search("compiling").len(), 1);
    assert_eq!(search("COMPILING").len(), 0, "an uppercase query must be exact");
}

#[test]
fn a_query_with_uppercase_becomes_case_sensitive() {
    // Smart case: nobody should have to find a toggle.
    assert_eq!(search("Compiling").len(), 1);
    assert_eq!(search("mica").len(), 2, "lowercase still matches both");
}

#[test]
fn columns_are_counted_in_characters_not_bytes() {
    // A byte offset would put the highlight in the wrong cell on any line
    // with non-ASCII in it.
    let mut s = Search::new();
    s.run("x", &[(0, "→→x")]);
    assert_eq!(s.matches()[0].start, 2, "the arrows are three bytes each");
}

#[test]
fn matches_do_not_overlap() {
    let mut s = Search::new();
    s.run("aa", &[(0, "aaaa")]);
    assert_eq!(s.len(), 2);
    assert_eq!(s.matches()[0].columns(), 0..2);
    assert_eq!(s.matches()[1].columns(), 2..4);
}

#[test]
fn next_and_previous_wrap_around() {
    let mut s = search("error");
    assert_eq!(s.position(), Some(1));
    assert_eq!(s.next().unwrap().line, 2);
    assert_eq!(s.position(), Some(2));
    // Wrapping is what makes repeated ⌘G usable without watching a counter.
    assert_eq!(s.next().unwrap().line, -2);
    assert_eq!(s.previous().unwrap().line, 2);
}

#[test]
fn navigating_an_empty_result_set_does_nothing() {
    let mut s = search("no-such-text");
    assert_eq!(s.next(), None);
    assert_eq!(s.previous(), None);
}

#[test]
fn focusing_picks_the_match_nearest_the_viewport() {
    // Opening find while reading the middle of a log should not jump to
    // the top of the scrollback.
    let mut s = search("error");
    s.focus_near(2);
    assert_eq!(s.current().unwrap().line, 2);
    s.focus_near(-2);
    assert_eq!(s.current().unwrap().line, -2);
}

#[test]
fn clearing_resets_everything() {
    let mut s = search("error");
    s.clear();
    assert!(s.is_empty());
    assert_eq!(s.query(), "");
    assert_eq!(s.position(), None);
}
