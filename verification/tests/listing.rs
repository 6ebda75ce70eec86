use colgrep::listing::{
    closest_directory, describe_directory, is_missing_path_message, missing_path_message,
    sort_texts, DirItem, Place,
};

fn item(name: &str, is_dir: bool) -> Option<DirItem> {
    Some(DirItem {
        name: name.to_string(),
        is_dir,
    })
}

#[test]
fn texts_are_sorted_as_the_standard_library_sorts_them() {
    let texts: Vec<String> = ["b", "a/", "", "ab", "é", "z", "a", "A", "ab", "\u{10000}", "\u{ffff}"]
        .iter()
        .map(|s| s.to_string())
        .collect();
    let mut expected = texts.clone();
    expected.sort();
    assert_eq!(sort_texts(texts), expected);
}

#[test]
fn the_closest_place_must_be_a_directory() {
    use_places(&[Place::Missing, Place::Directory, Place::Other], Some(1));
    use_places(&[Place::Directory], Some(0));
    use_places(&[Place::Missing, Place::Other, Place::Directory], None);
    use_places(&[Place::Missing, Place::Missing], None);
    use_places(&[], None);
}

fn use_places(places: &[Place], expected: Option<usize>) {
    assert_eq!(closest_directory(&places.to_vec()), expected);
}

#[test]
fn a_directory_is_listed() {
    let entries = vec![item("src", true), None, item("Cargo.toml", false)];
    assert_eq!(
        describe_directory(Some("/p"), &entries),
        "Closest existing directory: /p\nContents:\n  Cargo.toml\n  src/"
    );
    assert_eq!(
        describe_directory(Some("/p"), &Vec::new()),
        "Closest existing directory: /p\nContents:\n"
    );
    assert_eq!(
        describe_directory(None, &entries),
        "Could not find any existing parent directory."
    );
}

#[test]
fn a_long_listing_is_cut_short() {
    let entries: Vec<Option<DirItem>> = (0..40).map(|i| item(&format!("f{:02}", i), false)).collect();
    let text = describe_directory(Some("/p"), &entries);
    assert!(text.contains("  f29"));
    assert!(!text.contains("f30"));
    assert!(text.ends_with("\n  ... (truncated)"));
    // An entry that cannot be read counts among those that are looked at.
    let mut broken: Vec<Option<DirItem>> = (0..30).map(|i| item(&format!("f{:02}", i), false)).collect();
    broken[0] = None;
    let text = describe_directory(Some("/p"), &broken);
    assert!(text.ends_with("  f29"));
}

#[test]
fn a_missing_path_is_recognised_by_its_message() {
    let message = missing_path_message("/no/such", "help");
    assert_eq!(message, "Path does not exist: /no/such\n\nhelp");
    assert!(is_missing_path_message(&message));
    assert!(is_missing_path_message("while searching: Path does not exist: x"));
    assert!(!is_missing_path_message("path does not exist: x"));
}
