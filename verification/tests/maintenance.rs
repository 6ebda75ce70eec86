use std::path::PathBuf;

use colgrep::maintenance::{
    clear_target, entries_to_clear, entry_label, init_refusal, may_clear, ClearTarget,
};
use colgrep::parts::{FilePath, Location, PathParts};
use colgrep::paths::{IndexEntry, ParentIndexInfo, ProjectMetadata};

fn entry(project: Option<&str>, model: Option<&str>) -> IndexEntry {
    IndexEntry {
        index_dir: Location::at(PathBuf::from("/i/x")),
        metadata: project.map(|p| ProjectMetadata::new(&FilePath::new(p))),
        model_id: model.map(|m| m.to_string()),
    }
}

#[test]
fn indexes_of_other_models_stay() {
    let entries = vec![
        entry(None, Some("m")),
        entry(None, Some("other")),
        entry(None, Some("")),
        entry(None, None),
    ];
    assert_eq!(entries_to_clear("m", &entries), vec![0, 2, 3]);
    assert_eq!(entries_to_clear("other", &entries), vec![1, 2, 3]);
    assert!(entries_to_clear("m", &Vec::new()).is_empty());
    assert!(!may_clear("m", &entries[1]));
}

#[test]
fn an_index_is_called_by_its_project() {
    assert_eq!(entry_label(&entry(Some("/p"), None), "/i/x"), "/p");
    assert_eq!(entry_label(&entry(None, None), "/i/x"), "/i/x");
}

#[test]
fn the_index_of_the_project_is_cleared_first() {
    let parent = || {
        Some(ParentIndexInfo {
            index_dir: Location::at(PathBuf::from("/i/p")),
            project_path: FilePath::new("/home/me"),
            relative_subdir: PathParts::parse("tool"),
        })
    };
    assert!(matches!(clear_target(true, parent()), ClearTarget::Own));
    assert!(matches!(clear_target(false, parent()), ClearTarget::Parent(p) if p.project_path.text == "/home/me"));
    assert!(matches!(clear_target(false, None), ClearTarget::Nothing));
}

#[test]
fn only_directories_are_indexed() {
    assert_eq!(init_refusal("/p", true, true), None);
    assert_eq!(init_refusal("/p", false, false).unwrap(), "Path does not exist: /p");
    assert_eq!(init_refusal("/p", true, false).unwrap(), "Path is not a directory: /p");
}
