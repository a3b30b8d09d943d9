use mica::cell::{Color, NO_EXTRA};
use mica::sidetable::{Extras, ExtrasTable, Graphemes, SideTables};

#[test]
fn a_plain_build_log_allocates_nothing() {
    let tables = SideTables::new();
    assert_eq!(tables.allocated_bytes(), 0);
}

#[test]
fn interning_the_same_cluster_twice_yields_one_entry() {
    let mut g = Graphemes::new();
    let a = g.intern("\u{1F468}\u{200D}\u{1F469}\u{200D}\u{1F467}\u{200D}\u{1F466}");
    let b = g.intern("\u{1F468}\u{200D}\u{1F469}\u{200D}\u{1F467}\u{200D}\u{1F466}");
    assert_eq!(a, b);
    assert_eq!(g.len(), 1);
}

#[test]
fn distinct_clusters_round_trip() {
    let mut g = Graphemes::new();
    let family = g.intern("\u{1F468}\u{200D}\u{1F469}\u{200D}\u{1F467}\u{200D}\u{1F466}");
    let flag = g.intern("\u{1F1FA}\u{1F1F8}");
    assert_ne!(family, flag);
    assert_eq!(g.get(flag), Some("\u{1F1FA}\u{1F1F8}"));
}

#[test]
fn empty_extras_never_allocate_and_map_to_the_sentinel() {
    let mut t = ExtrasTable::new();
    assert_eq!(t.intern(Extras::default()), NO_EXTRA);
    assert_eq!(t.allocated_bytes(), 0);
    assert!(t.get(NO_EXTRA).is_none());
}

#[test]
fn underline_colour_survives_interning() {
    let mut t = ExtrasTable::new();
    let e = Extras { underline_color: Some(Color::rgb(9, 8, 7)), hyperlink: None };
    let id = t.intern(e);
    assert_ne!(id, NO_EXTRA);
    assert_eq!(t.get(id).unwrap().underline_color, Some(Color::rgb(9, 8, 7)));
}

#[test]
fn allocations_leave_room_for_what_is_stored() {
    let mut t = SideTables::new();
    let uri = "https://example.org/".repeat(50);
    t.hyperlinks.intern(&uri);
    assert!(t.hyperlinks.allocated_bytes() >= uri.len() + core::mem::size_of::<String>());
    let cluster = "👩‍👩‍👧";
    t.graphemes.intern(cluster);
    assert!(t.graphemes.allocated_bytes() >= cluster.len() + core::mem::size_of::<String>());
    t.extras.intern(Extras { underline_color: None, hyperlink: Some(0) });
    let size = core::mem::size_of::<Extras>();
    assert!(t.extras.allocated_bytes() >= 2 * size, "the entry and the sentinel");
    assert_eq!(t.extras.allocated_bytes() % size, 0);
    assert_eq!(
        t.allocated_bytes(),
        t.graphemes.allocated_bytes() + t.extras.allocated_bytes() + t.hyperlinks.allocated_bytes()
    );
}
