use atref::picker::{counter_text, empty_note, insert_pressed, row_suffix, Action, Row};

#[test]
fn counter_formats_matches_over_total() {
    assert_eq!(counter_text(8, 1204), "8 / 1204");
    assert_eq!(counter_text(0, 0), "0 / 0");
}

#[test]
fn counter_formats_large_counts() {
    assert_eq!(counter_text(50, 100000), "50 / 100000");
    assert_eq!(counter_text(10, 9), "10 / 9");
}

#[test]
fn row_and_action_carry_their_values() {
    let r = Row {
        name: "a.md".to_string(),
        location: "vault".to_string(),
    };
    assert_eq!(r.name, "a.md");
    assert_eq!(r.location, "vault");
    assert!(matches!(Action::Accept(3), Action::Accept(3)));
    assert!(matches!(Action::Idle, Action::Idle));
    assert!(matches!(Action::Close, Action::Close));
}

#[test]
fn row_suffix_sets_the_location_apart() {
    let nested = Row {
        name: "001.md".to_string(),
        location: "atref/specs".to_string(),
    };
    assert_eq!(row_suffix(&nested), "    atref/specs");
    let bare = Row {
        name: "x.md".to_string(),
        location: String::new(),
    };
    assert_eq!(row_suffix(&bare), "");
}

#[test]
fn empty_list_notes() {
    assert_eq!(empty_note(0, 0), Some("no files indexed".to_string()));
    assert_eq!(empty_note(1204, 0), Some("no matches".to_string()));
    assert_eq!(empty_note(1204, 8), None);
}

#[test]
fn insert_needs_a_row() {
    assert!(matches!(insert_pressed(0, 0), Action::Idle));
    assert!(matches!(insert_pressed(3, 2), Action::Accept(2)));
}
