use std::path::PathBuf;

use colgrep::parts::{Component, FilePath, Location, PathParts, Volume};
use colgrep::paths::{
    compute_index_dir_name, find_index_for_project, find_index_for_project_and_model,
    find_index_for_project_impl, find_index_from, find_index_in, find_parent_index, get_colgrep_data_dir, get_index_dir_for_project,
    get_index_dir_for_project_and_model, get_lock_path, get_metadata_path, get_project_path,
    get_state_path, get_vector_index_path, index_dir_from, index_dir_in, index_exists,
    index_exists_for_model, index_exists_from, indices_dir_from, lock_step, lock_timeout_message,
    IndexEntry, LockStep, PathError, ProjectMetadata,
};

fn last_name(p: &Location) -> String {
    p.below.last().unwrap().clone()
}

fn path_of(p: &Location) -> PathBuf {
    let mut path = p.base.clone();
    path.extend(&p.below);
    path
}

fn entry(dir: &str, project: Option<&str>, model: Option<&str>) -> IndexEntry {
    IndexEntry {
        index_dir: Location::at(PathBuf::from(dir)),
        metadata: project.map(|p| ProjectMetadata::new(&FilePath::new(p))),
        model_id: model.map(|m| m.to_string()),
    }
}

#[test]
fn test_compute_index_dir_name() {
    let path = FilePath::new("/Users/foo/myproject");
    let name = compute_index_dir_name(&path, None);
    // Should be format: myproject-{8 hex chars}
    assert!(name.starts_with("myproject-"));
    assert_eq!(name.len(), "myproject-".len() + 8);
}

#[test]
fn test_compute_index_dir_name_with_special_chars() {
    let path = FilePath::new("/Users/foo/my project (1)");
    let name = compute_index_dir_name(&path, None);
    // Special chars should be replaced with underscores
    assert!(name.starts_with("my_project__1_-"));
}

#[test]
fn test_different_paths_different_hashes() {
    let path1 = FilePath::new("/Users/foo/project1");
    let path2 = FilePath::new("/Users/foo/project2");
    let name1 = compute_index_dir_name(&path1, None);
    let name2 = compute_index_dir_name(&path2, None);
    assert_ne!(name1, name2);
}

#[test]
fn test_same_path_different_models_different_hashes() {
    let path = FilePath::new("/Users/foo/myproject");
    let name_default = compute_index_dir_name(&path, None);
    let name_code = compute_index_dir_name(&path, Some("lightonai/LateOn-Code-edge"));
    let name_reason = compute_index_dir_name(&path, Some("lightonai/Reason-ModernColBERT"));
    // All three should be different
    assert_ne!(name_default, name_code);
    assert_ne!(name_default, name_reason);
    assert_ne!(name_code, name_reason);
    // But all should start with myproject-
    assert!(name_default.starts_with("myproject-"));
    assert!(name_code.starts_with("myproject-"));
    assert!(name_reason.starts_with("myproject-"));
}

#[test]
fn test_same_path_same_model_same_hash() {
    let path = FilePath::new("/Users/foo/myproject");
    let name1 = compute_index_dir_name(&path, Some("lightonai/Reason-ModernColBERT"));
    let name2 = compute_index_dir_name(&path, Some("lightonai/Reason-ModernColBERT"));
    assert_eq!(name1, name2);
}

#[test]
fn index_dir_name_holds_the_first_digits_of_the_hash() {
    // The hash of nothing is 2d06800538d394c2.
    assert_eq!(compute_index_dir_name(&FilePath::new(""), None), "project-2d068005");
    let hash = xxhash_rust::xxh3::xxh3_64("/a/b c:m/n".as_bytes());
    let digits: String = format!("{:08x}", hash).chars().take(8).collect();
    assert_eq!(
        compute_index_dir_name(&FilePath::new("/a/b c"), Some("m/n")),
        format!("b_c-{}", digits)
    );
}

#[test]
fn letters_of_any_script_stay_in_a_name() {
    let name = compute_index_dir_name(&FilePath::new("/a/пример-1_x.y"), None);
    assert!(name.starts_with("пример-1_x_y-"));
}

#[test]
fn metadata_names_the_project() {
    let meta = ProjectMetadata::new(&FilePath::new("/home/me/tool"));
    assert_eq!(meta.project_name, "tool");
    assert_eq!(meta.project_path.text, "/home/me/tool");
    assert_eq!(ProjectMetadata::new(&FilePath::new("/")).project_name, "project");
    assert_eq!(meta.clone().project_name, "tool");
}

#[test]
fn data_dir_is_the_users() {
    match (get_colgrep_data_dir(), dirs::data_dir()) {
        (Ok(dir), Some(data)) => {
            assert_eq!(path_of(&dir), data.join("colgrep").join("indices"));
        }
        (Err(e), None) => {
            assert_eq!(e, PathError::NoDataDir);
            assert_eq!(e.message(), "Could not determine data directory");
        }
        _ => panic!("the data directory is either known or not"),
    }
}

#[test]
fn an_unknown_data_dir_is_passed_on() {
    let project = FilePath::new("/home/me/tool");
    let unknown = || indices_dir_from(None);
    assert_eq!(unknown().unwrap_err(), PathError::NoDataDir);
    assert!(index_dir_from(unknown(), &project, None).is_err());
    assert!(find_index_from(unknown(), &project, None, true, true).is_err());
    assert!(!index_exists_from(unknown(), &project, Some("m"), true));

    let known = || indices_dir_from(Some(PathBuf::from("/data")));
    let indices = known().unwrap();
    assert_eq!(path_of(&indices), PathBuf::from("/data/colgrep/indices"));
    let dir = index_dir_from(known(), &project, Some("m")).unwrap();
    assert_eq!(path_of(&dir), path_of(&index_dir_in(&indices, &project, Some("m"))));
    let found = find_index_from(known(), &project, Some("m"), false, true).unwrap().unwrap();
    assert_eq!(path_of(&found), path_of(&index_dir_in(&indices, &project, None)));
    assert!(index_exists_from(known(), &project, Some("m"), true));
    assert!(index_exists_from(known(), &project, None, true));
    assert!(!index_exists_from(known(), &project, Some("m"), false));
}

#[test]
fn index_dirs_stand_below_the_data_dir() {
    let project = FilePath::new("/home/me/tool");
    let plain = compute_index_dir_name(&project, None);
    let for_model = compute_index_dir_name(&project, Some("m/n"));
    if let Ok(dir) = get_index_dir_for_project(&project) {
        assert_eq!(last_name(&dir), plain);
    }
    if let Ok(dir) = get_index_dir_for_project_and_model(&project, "m/n") {
        assert_eq!(last_name(&dir), for_model);
    }
    let base = Location::at(PathBuf::from("/data"));
    assert_eq!(last_name(&index_dir_in(&base, &project, Some("m/n"))), for_model);
}

#[test]
fn files_of_an_index_have_their_names() {
    let dir = Location::at(PathBuf::from("/i"));
    assert_eq!(path_of(&get_state_path(&dir)), PathBuf::from("/i/state.json"));
    assert_eq!(path_of(&get_project_path(&dir)), PathBuf::from("/i/project.json"));
    assert_eq!(path_of(&get_vector_index_path(&dir)), PathBuf::from("/i/index"));
    assert_eq!(path_of(&get_metadata_path(&dir)), PathBuf::from("/i/index/metadata.json"));
    assert_eq!(path_of(&get_lock_path(&dir)), PathBuf::from("/i/.lock"));
}

#[test]
fn an_old_index_serves_where_there_is_none_for_the_model() {
    let base = Location::at(PathBuf::from("/data"));
    let project = FilePath::new("/home/me/tool");
    let plain = index_dir_in(&base, &project, None);
    let for_model = index_dir_in(&base, &project, Some("m"));
    let found = find_index_in(&base, &project, Some("m"), true, true).unwrap();
    assert_eq!(path_of(&found), path_of(&for_model));
    let found = find_index_in(&base, &project, Some("m"), false, true).unwrap();
    assert_eq!(path_of(&found), path_of(&plain));
    assert!(find_index_in(&base, &project, Some("m"), false, false).is_none());
    assert!(find_index_in(&base, &project, None, false, true).is_none());
}

#[test]
fn an_index_exists_where_it_is_present() {
    let project = FilePath::new("/home/me/tool");
    let known = get_colgrep_data_dir().is_ok();
    assert_eq!(index_exists(&project, true), known);
    assert!(!index_exists(&project, false));
    assert_eq!(index_exists_for_model(&project, "m", true), known);
    assert!(!index_exists_for_model(&project, "m", false));
    if known {
        assert!(find_index_for_project(&project, true).unwrap().is_some());
        let found = find_index_for_project_and_model(&project, "m", true).unwrap().unwrap();
        assert_eq!(last_name(&found), compute_index_dir_name(&project, Some("m")));
        assert!(find_index_for_project_and_model(&project, "m", false).unwrap().is_none());
        let found = find_index_for_project_impl(&project, Some("m"), false, true);
        assert_eq!(last_name(&found.unwrap().unwrap()), compute_index_dir_name(&project, None));
    }
}

#[test]
fn the_deepest_parent_is_found() {
    let entries = vec![
        entry("/i/a", Some("/home/me"), Some("m")),
        entry("/i/b", Some("/home/me/tool"), Some("m")),
        entry("/i/c", Some("/home/me/tool/src"), Some("m")),
        entry("/i/d", None, Some("m")),
        entry("/i/e", Some("/home/me/too"), Some("m")),
    ];
    let search = PathParts::parse("/home/me/tool/src");
    let info = find_parent_index(&search, Some("m"), &entries).unwrap();
    assert!(path_of(&info.index_dir) == PathBuf::from("/i/b"));
    assert_eq!(info.project_path.text, "/home/me/tool");
    assert!(info.relative_subdir.is_same(&PathParts::parse("src")));
}

#[test]
fn the_index_of_the_model_is_preferred_at_any_depth() {
    let entries = vec![
        entry("/i/a", Some("/home"), Some("m")),
        entry("/i/b", Some("/home/me"), Some("other")),
        entry("/i/c", Some("/home/me/tool"), Some("")),
    ];
    let search = PathParts::parse("/home/me/tool/src");
    let info = find_parent_index(&search, Some("m"), &entries).unwrap();
    assert!(path_of(&info.index_dir) == PathBuf::from("/i/a"));
    // Without one of the model, any index will do, and without a model each does.
    let info = find_parent_index(&search, Some("x"), &entries).unwrap();
    assert!(path_of(&info.index_dir) == PathBuf::from("/i/c"));
    let info = find_parent_index(&search, None, &entries).unwrap();
    assert!(path_of(&info.index_dir) == PathBuf::from("/i/c"));
    assert!(info.clone().relative_subdir.is_same(&PathParts::parse("src")));
}

#[test]
fn of_equally_deep_parents_the_first_is_found() {
    let entries = vec![
        entry("/i/a", Some("/home/me"), None),
        entry("/i/b", Some("/home/me"), None),
    ];
    let search = PathParts::parse("/home/me/tool");
    let info = find_parent_index(&search, None, &entries).unwrap();
    assert!(path_of(&info.index_dir) == PathBuf::from("/i/a"));
    assert!(find_parent_index(&PathParts::parse("/home/me"), None, &entries).is_none());
    assert!(find_parent_index(&PathParts::parse("/elsewhere"), None, &entries).is_none());
}

#[test]
fn a_lock_is_waited_for_five_seconds() {
    assert_eq!(lock_step(true, 9000), LockStep::Held);
    assert_eq!(lock_step(false, 0), LockStep::Retry);
    assert_eq!(lock_step(false, 4999), LockStep::Retry);
    assert_eq!(lock_step(false, 5000), LockStep::TimedOut);
    assert_eq!(
        lock_timeout_message(),
        "Timed out waiting for index lock after 5 seconds. \
         Another colgrep instance may be updating this index."
    );
}

#[test]
fn components_are_told_apart() {
    assert!(Component::RootDir.is_same(&Component::RootDir));
    assert!(!Component::RootDir.is_same(&Component::CurDir));
    let name = PathParts::parse("a").components.remove(0);
    assert!(name.is_same(&name.clone()));
    assert!(!name.is_same(&Component::Prefix(Volume::Verbatim(b"a".to_vec()))));
}
