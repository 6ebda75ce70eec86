use std::path::PathBuf;

use colgrep::matcher::CodeUnit;
use colgrep::parts::{FilePath, Location, PathParts};
use colgrep::paths::ParentIndexInfo;
use colgrep::ranking::SearchHit;
use colgrep::search::{
    file_in_project, is_external_project, loaded_index, placed_file, project_scope, result_file,
    scope_of, search_scope,
    total_changes, SearchTally,
};

fn hit(id: usize) -> SearchHit {
    SearchHit {
        unit: CodeUnit {
            file: FilePath::new("/a.rs"),
            line: id,
            end_line: id,
            code: String::new(),
            text_format: false,
        },
        rank: 0,
        id,
    }
}

fn parent() -> Option<ParentIndexInfo> {
    Some(ParentIndexInfo {
        index_dir: Location::at(PathBuf::from("/i/p")),
        project_path: FilePath::new("/home/me"),
        relative_subdir: PathParts::parse("tool"),
    })
}

#[test]
fn a_file_is_searched_in_its_directory() {
    let scope = search_scope(FilePath::new("/d/f"), true, Some(FilePath::new("/d"))).ok().unwrap();
    assert_eq!(scope.directory.text, "/d");
    assert_eq!(scope.file.unwrap().text, "/d/f");
    let scope = search_scope(FilePath::new("/d"), false, Some(FilePath::new("/"))).ok().unwrap();
    assert_eq!(scope.directory.text, "/d");
    assert!(scope.file.is_none());
    assert_eq!(
        search_scope(FilePath::new("f"), true, None).err().unwrap(),
        "File has no parent directory: f"
    );
}

#[test]
fn the_directory_of_a_file_is_its_parent() {
    let scope = scope_of(FilePath::new("/d/f"), true).ok().unwrap();
    assert_eq!(scope.directory.text, "/d");
    assert_eq!(scope.file.unwrap().text, "/d/f");
    assert!(scope_of(FilePath::new("/d"), false).ok().unwrap().file.is_none());
    assert_eq!(
        scope_of(FilePath::new("/"), true).err().unwrap(),
        "File has no parent directory: /"
    );
}

#[test]
fn other_projects_lie_outside_the_current_directory() {
    let current = Some(PathParts::parse("/home/me"));
    assert!(!is_external_project(&PathParts::parse("/home/me/tool"), &current));
    assert!(!is_external_project(&PathParts::parse("/home/me"), &current));
    assert!(is_external_project(&PathParts::parse("/home"), &current));
    assert!(!is_external_project(&PathParts::parse("/anywhere"), &None));
}

#[test]
fn the_project_of_the_parent_is_searched() {
    let directory = FilePath::new("/home/me/tool");
    let scope = project_scope(&directory, &parent(), false);
    assert_eq!(scope.root.text, "/home/me");
    assert!(scope.subdirectory.unwrap().is_same(&PathParts::parse("tool")));
    let scope = project_scope(&directory, &parent(), true);
    assert_eq!(scope.root.text, "/home/me");
    assert!(scope.subdirectory.is_none());
    let scope = project_scope(&directory, &None, false);
    assert_eq!(scope.root.text, "/home/me/tool");
    assert!(scope.subdirectory.is_none());
    let own = Location::at(PathBuf::from("/i")).join_name("own");
    assert_eq!(loaded_index(&parent(), &own).base, PathBuf::from("/i/p"));
    let loaded = loaded_index(&None, &own);
    assert_eq!((loaded.base, loaded.below), (own.base, own.below));
}

#[test]
fn a_file_is_named_from_the_root_of_its_project() {
    let root = PathParts::parse("/home/me");
    let inside = file_in_project(&PathParts::parse("/home/me/a/b.rs"), &root);
    assert!(inside.is_same(&PathParts::parse("a/b.rs")));
    let outside = file_in_project(&PathParts::parse("/else/b.rs"), &root);
    assert!(outside.is_same(&PathParts::parse("/else/b.rs")));
}

#[test]
fn files_of_results_are_absolute() {
    let root = FilePath::new("/home/me");
    let file = result_file(&root, FilePath::new("src/a.rs"), false);
    assert_eq!(file.path, PathBuf::from("/home/me/src/a.rs"));
    assert_eq!(file.text, PathBuf::from("/home/me").join("src/a.rs").to_string_lossy());
    assert!(file.parts.is_same(&PathParts::parse("/home/me/src/a.rs")));
    let file = result_file(&FilePath::new("/"), FilePath::new("a/b.rs"), false);
    assert_eq!(file.text, "/a/b.rs");
    let file = placed_file(&root, FilePath::new("src/a.rs"));
    assert_eq!(file.path, PathBuf::from("/home/me/src/a.rs"));
    assert_eq!(placed_file(&root, FilePath::new("/else/a.rs")).text, "/else/a.rs");
    let file = result_file(&root, FilePath::new("./a.rs"), false);
    assert!(file.parts.is_same(&PathParts::parse("/home/me/a.rs")));
    let file = result_file(&root, FilePath::new("/else/a.rs"), true);
    assert_eq!(file.text, "/else/a.rs");
}

#[test]
fn changes_are_added_up() {
    assert_eq!(total_changes(1, 2, 3), 6);
    assert_eq!(total_changes(0, 0, 0), 0);
}

#[test]
fn a_search_goes_on_past_missing_paths() {
    let mut tally = SearchTally::new();
    assert!(tally.failure().is_none());
    assert!(tally.add_failure("Path does not exist: a".to_string()));
    assert!(tally.add_failure("Path does not exist: b".to_string()));
    assert_eq!(
        tally.failure().unwrap(),
        "Path does not exist: a\n\nPath does not exist: b"
    );
    tally.add_hits(Vec::new());
    assert!(tally.failure().is_some());
    tally.add_hits(vec![hit(1), hit(2)]);
    tally.add_hits(vec![hit(3)]);
    assert!(tally.failure().is_none());
    assert_eq!(tally.hits.iter().map(|h| h.id).collect::<Vec<_>>(), vec![1, 2, 3]);
    assert!(tally.warns(false, false));
    assert!(!tally.warns(true, false));
    assert!(!tally.warns(false, true));
}

#[test]
fn other_failures_end_a_search() {
    let mut tally = SearchTally::new();
    assert!(!tally.add_failure("no model".to_string()));
    assert!(tally.missing.is_empty());
    assert!(!tally.warns(false, false));
}
