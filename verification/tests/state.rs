use colgrep::state::{displayed_model, hash_file, FileInfo, IndexState};

#[test]
fn test_index_state_default() {
    let state = IndexState::default();
    assert!(state.cli_version.is_empty());
    assert!(state.files.is_empty());
}

#[test]
fn test_index_state_load_nonexistent() {
    let state = IndexState::load(None);
    assert!(state.files.is_empty());
}

#[test]
fn test_index_state_save_and_load() {
    let mut state = IndexState::default();
    state.files.insert(
        "test.rs".to_string(),
        FileInfo {
            content_hash: 999999,
            mtime: 1700000000,
        },
    );

    // Save
    let written = state.save("1.2.3");

    // Load and verify
    let loaded = IndexState::load(Some(written));
    assert!(loaded.files.contains_key("test.rs"));
    let file_info = loaded.files.get("test.rs").unwrap();
    assert_eq!(file_info.content_hash, 999999);

    // CLI version should be set after saving
    assert!(!loaded.cli_version.is_empty());
    assert_eq!(loaded.cli_version, "1.2.3");
}

#[test]
fn test_hash_file() {
    let hash = hash_file(b"Hello, World!");
    assert!(hash > 0);

    // Same content should produce same hash
    let hash2 = hash_file(b"Hello, World!");
    assert_eq!(hash, hash2);
}

#[test]
fn test_hash_file_different_content() {
    let hash1 = hash_file(b"Content A");
    let hash2 = hash_file(b"Content B");

    assert_ne!(hash1, hash2);
}

#[test]
fn hash_of_nothing_is_known() {
    assert_eq!(hash_file(b""), 0x2d06800538d394c2);
}

#[test]
fn test_search_count_increment_and_reset() {
    // Create initial state with zero search count
    let mut state = IndexState::default();
    assert_eq!(state.search_count, 0);

    // Increment search count
    state.increment_search_count();
    assert_eq!(state.search_count, 1);

    state.increment_search_count();
    state.increment_search_count();
    assert_eq!(state.search_count, 3);

    // Save and reload to verify persistence
    let loaded = IndexState::load(Some(state.save("1.2.3")));
    assert_eq!(loaded.search_count, 3);

    // Reset search count
    let mut loaded = loaded;
    loaded.reset_search_count();
    assert_eq!(loaded.search_count, 0);

    // Save and reload to verify reset persists
    let reloaded = IndexState::load(Some(loaded.save("1.2.3")));
    assert_eq!(reloaded.search_count, 0);
}

#[test]
fn status_names_the_recorded_model() {
    assert_eq!(displayed_model(&Some("a/b".to_string()), "c/d"), "a/b");
    assert_eq!(displayed_model(&Some(String::new()), "c/d"), "c/d");
    assert_eq!(displayed_model(&None, "c/d"), "c/d");
}
