use colgrep::session::{
    is_damaged_for_load, is_damaged_for_update, no_index_message, Action, Event, Phase, Session,
};

fn failed(display: &str, debug: &str) -> Event {
    Event::Failed {
        display: display.to_string(),
        debug: debug.to_string(),
    }
}

fn checked(present: bool, ignored: Option<&str>) -> Event {
    Event::Checked {
        present,
        ignored: ignored.map(|s| s.to_string()),
    }
}

#[test]
fn an_index_is_updated_loaded_and_searched() {
    let (mut s, action) = Session::start();
    assert!(matches!(action, Action::Update));
    assert!(matches!(s.step(&Event::Updated), Action::Check));
    assert!(matches!(s.step(&checked(true, None)), Action::Load));
    assert_eq!(s.phase, Phase::Loading);
    assert!(matches!(s.step(&Event::Loaded), Action::Search));
    assert_eq!(s.phase, Phase::Ready);
}

#[test]
fn a_damaged_index_is_built_anew() {
    let (mut s, _) = Session::start();
    assert!(matches!(s.step(&failed("", "No data to merge")), Action::Rebuild));
    assert!(matches!(s.step(&Event::Rebuilt), Action::Check));
    assert!(matches!(s.step(&checked(true, None)), Action::Load));
    assert!(matches!(s.step(&failed("", "IndexLoad(..)")), Action::Restore));
    assert!(matches!(s.step(&Event::Rebuilt), Action::Load));
    assert!(matches!(s.step(&failed("Index load failed", "")), Action::FailAsReported));
    assert_eq!(s.phase, Phase::Failed);
}

#[test]
fn a_locked_index_is_retried_three_times_and_kept() {
    let (mut s, _) = Session::start();
    assert!(matches!(s.step(&Event::Locked), Action::Check));
    assert!(matches!(s.step(&checked(true, None)), Action::Load));
    assert!(matches!(s.step(&failed("Index load failed", "")), Action::WaitAndLoad));
    assert!(matches!(s.step(&failed("Index load failed", "")), Action::WaitAndLoad));
    assert!(matches!(s.step(&failed("Index load failed", "")), Action::WaitAndLoad));
    match s.step(&failed("Index load failed", "")) {
        Action::FailBehind(message) => assert_eq!(
            message,
            "⏳ Index load failed while another process is updating. \
             Rely on grep until the update completes."
        ),
        _ => panic!("there are three retries"),
    }
}

#[test]
fn a_retry_may_succeed() {
    let (mut s, _) = Session::start();
    s.step(&Event::Locked);
    s.step(&checked(true, None));
    s.step(&failed("x", "x"));
    assert!(matches!(s.step(&Event::Loaded), Action::Search));
}

#[test]
fn other_errors_are_reported() {
    let (mut s, _) = Session::start();
    assert!(matches!(s.step(&failed("disk full", "disk full")), Action::FailAsReported));
    let (mut s, _) = Session::start();
    s.step(&Event::Updated);
    s.step(&checked(true, None));
    assert!(matches!(s.step(&failed("disk full", "disk full")), Action::FailAsReported));
    let (mut s, _) = Session::start();
    s.step(&failed("No data to merge", ""));
    assert!(matches!(s.step(&failed("No data to merge", "")), Action::FailAsReported));
}

#[test]
fn what_the_user_cancelled_is_no_damage() {
    assert!(!is_damaged_for_update("Indexing cancelled by user: No data to merge", ""));
    assert!(is_damaged_for_update("No data to merge", ""));
    assert!(is_damaged_for_update("", "No data to merge"));
    assert!(is_damaged_for_update("Index load failed", ""));
    assert!(!is_damaged_for_update("", "Index load failed"));
    assert!(!is_damaged_for_update("IndexLoad", "IndexLoad"));
    assert!(is_damaged_for_load("", "IndexLoad"));
    assert!(is_damaged_for_load("No data to merge", ""));
    assert!(!is_damaged_for_load("IndexLoad", "Index load failed"));
}

#[test]
fn the_reason_why_there_is_no_index_is_told() {
    let (mut s, _) = Session::start();
    s.step(&Event::Locked);
    match s.step(&checked(false, Some("target"))) {
        Action::FailWith(m) => assert_eq!(
            m,
            "colgrep index is currently being built, rely on grep for now."
        ),
        _ => panic!("there is no index"),
    }
    assert_eq!(
        no_index_message(false, &Some("target".to_string())),
        "No files indexed. The path contains 'target' which is in the default ignore list.\n\
         Ignored directories: tmp, temp, vendor, node_modules, target, build, dist, .git, etc.\n\
         Try searching from a different directory or project root."
    );
    assert_eq!(
        no_index_message(false, &None),
        "No index found. Index building may have failed (no indexable files found)."
    );
}
