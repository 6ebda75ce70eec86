use std::path::{Path, PathBuf, Prefix};

use colgrep::parts::{Component, FilePath, Location, Name, PathParts, Piece, Volume};

fn names(p: &PathParts) -> Vec<String> {
    p.components
        .iter()
        .map(|c| match c {
            Component::Prefix(v) => format!("prefix {:?}", v),
            Component::RootDir => "/".to_string(),
            Component::CurDir => ".".to_string(),
            Component::ParentDir => "..".to_string(),
            Component::Normal(n) => n.text.clone(),
        })
        .collect()
}

#[test]
fn a_path_is_read_by_its_components() {
    assert_eq!(names(&PathParts::parse("/a//b/./c/")), vec!["/", "a", "b", "c"]);
    assert_eq!(names(&PathParts::parse("./a/../b")), vec![".", "a", "..", "b"]);
    assert_eq!(names(&PathParts::parse("a/.")), vec!["a"]);
    assert!(names(&PathParts::parse("")).is_empty());
    assert_eq!(PathParts::parse("/a/b").depth(), 3);
}

#[test]
fn a_path_keeps_its_text() {
    let p = FilePath::new("/a//b/");
    assert_eq!(p.text, "/a//b/");
    assert!(p.parts.is_same(&PathParts::parse("/a/b")));
    let q = p.clone();
    assert_eq!(q.text, "/a//b/");
    assert!(q.parts.is_same(&p.parts));
}

#[test]
fn only_a_name_is_a_file_name() {
    assert_eq!(PathParts::parse("/a/b").file_name(), Some("b".to_string()));
    assert_eq!(PathParts::parse("/").file_name(), None);
    assert_eq!(PathParts::parse("a/..").file_name(), None);
    assert_eq!(PathParts::parse("").file_name(), None);
}

#[test]
fn prefixes_are_whole_components() {
    let p = PathParts::parse("/home/me/project/src");
    assert!(p.starts_with(&PathParts::parse("/home/me")));
    assert!(p.starts_with(&PathParts::parse("")));
    assert!(!p.starts_with(&PathParts::parse("/home/m")));
    assert!(!p.starts_with(&PathParts::parse("home")));
    let rest = p.strip_prefix(&PathParts::parse("/home/me")).unwrap();
    assert_eq!(names(&rest), vec!["project", "src"]);
    assert!(p.strip_prefix(&PathParts::parse("/elsewhere")).is_none());
}

#[test]
fn names_are_put_below_a_path() {
    let place = Location::at(PathBuf::from("/a")).join_name("b").join_name("c");
    assert_eq!(place.base, PathBuf::from("/a"));
    assert_eq!(place.below, vec!["b", "c"]);
    assert_eq!(place.clone().below, vec!["b", "c"]);
}

#[test]
fn a_path_has_a_tail() {
    let base = PathParts::parse("/a/b");
    assert_eq!(names(&base.tail_from(1)), vec!["a", "b"]);
    assert!(names(&base.tail_from(3)).is_empty());
}

#[test]
fn paths_are_adjoined_as_the_standard_library_does() {
    for base in ["/a/b", "/", "a", ".", "", "a/..", "/a/"] {
        for other in ["c/d", "/c", "./c", "", "..", "../c", ".", "c/./d"] {
            let joined = Path::new(base).join(other);
            let file = FilePath::new(base).join(&FilePath::new(other));
            assert_eq!(file.path, joined);
            assert_eq!(file.text, joined.to_string_lossy());
            let expected = PathParts::parse(&joined.to_string_lossy());
            assert_eq!(names(&file.parts), names(&expected));
        }
    }
}

fn on_volume(volume: Volume, rest: &[&str]) -> PathParts {
    let mut components = vec![Component::Prefix(volume)];
    for name in rest {
        components.push(match *name {
            "/" => Component::RootDir,
            "." => Component::CurDir,
            ".." => Component::ParentDir,
            name => PathParts::parse(name).components.remove(0),
        });
    }
    PathParts { components }
}

#[test]
fn behind_a_verbatim_volume_no_dots_are_left() {
    let base = on_volume(Volume::VerbatimDisk(67), &["/", "a"]);
    let joined = base.join(&PathParts::parse("./b/../c"));
    assert!(joined.is_same(&on_volume(Volume::VerbatimDisk(67), &["/", "a", "c"])));
    let joined = base.join(&PathParts::parse("/d"));
    assert!(joined.is_same(&on_volume(Volume::VerbatimDisk(67), &["/", "d"])));
    let joined = base.join(&PathParts::parse("../../e"));
    assert!(joined.is_same(&on_volume(Volume::VerbatimDisk(67), &["/", "e"])));
}

#[test]
fn a_volume_stays_in_front_of_a_root() {
    let base = on_volume(Volume::Disk(67), &["/", "a"]);
    let joined = base.join(&PathParts::parse("/d"));
    assert!(joined.is_same(&on_volume(Volume::Disk(67), &["/", "d"])));
    let other = on_volume(Volume::Disk(68), &["b"]);
    assert!(base.join(&other).is_same(&other));
    let drive = on_volume(Volume::Disk(67), &[]);
    assert!(drive.join(&PathParts::parse("./b")).is_same(&on_volume(Volume::Disk(67), &[".", "b"])));
}

#[test]
fn a_volume_is_kept_as_it_was_read() {
    let pieces = || {
        vec![
            Piece::Prefix(Prefix::Disk(67)),
            Piece::RootDir,
            Piece::CurDir,
            Piece::ParentDir,
            Piece::Normal(Name {
                text: "a".to_string(),
                bytes: b"a".to_vec(),
            }),
        ]
    };
    let path = PathParts::from_pieces(pieces());
    assert!(path.is_same(&on_volume(Volume::Disk(67), &["/", ".", "..", "a"])));
    let mut other = pieces();
    other[0] = Piece::Prefix(Prefix::Disk(68));
    assert!(!path.is_same(&PathParts::from_pieces(other)));
    let share = Prefix::UNC("server".as_ref(), "share".as_ref());
    let path = PathParts::from_pieces(vec![Piece::Prefix(share), Piece::RootDir]);
    let volume = Volume::Unc(b"server".to_vec(), b"share".to_vec());
    assert!(path.is_same(&on_volume(volume, &["/"])));
}

#[test]
fn names_are_compared_by_their_bytes() {
    let name = |bytes: &[u8]| Name {
        text: "\u{fffd}".to_string(),
        bytes: bytes.to_vec(),
    };
    assert!(name(b"\xff").is_same(&name(b"\xff").clone()));
    assert!(!name(b"\xff").is_same(&name(b"\xfe")));
    let read = PathParts::parse("/ä");
    match &read.components[1] {
        Component::Normal(n) => assert_eq!((n.text.as_str(), n.bytes.as_slice()), ("ä", "ä".as_bytes())),
        _ => panic!("the path ends in a name"),
    }
}

#[test]
fn a_colon_may_stand_in_a_name() {
    assert_eq!(names(&PathParts::parse("/home/me/a:b")), vec!["/", "home", "me", "a:b"]);
}

#[test]
fn a_path_is_read_from_the_file_system() {
    let file = FilePath::from_path(PathBuf::from("/a//b"));
    assert_eq!(file.path, PathBuf::from("/a//b"));
    assert_eq!(file.text, "/a//b");
    assert!(file.parts.is_same(&PathParts::of(&PathBuf::from("/a/b"))));
}

#[test]
fn only_roots_have_no_parent() {
    for (path, parent) in [
        ("/a/b", Some("/a")),
        ("/a", Some("/")),
        ("a", Some("")),
        ("a/./b/", Some("a")),
        ("a/..", Some("a")),
        ("/", None),
        ("", None),
    ] {
        let found = FilePath::new(path).parent();
        assert_eq!(found.as_ref().map(|p| p.text.as_str()), parent);
        if let Some(p) = found {
            let whole = names(&FilePath::new(path).parts);
            assert_eq!(names(&p.parts), whole[..whole.len() - 1].to_vec());
        }
    }
}

#[test]
fn a_path_without_a_root_is_not_absolute() {
    assert!(!FilePath::new("a/b").is_absolute());
    assert!(!FilePath::new("").is_absolute());
    let root = Path::new("/a");
    assert_eq!(FilePath::from_path(root.to_path_buf()).is_absolute(), root.is_absolute());
}

#[test]
fn volumes_are_told_apart() {
    let share = |s: &str| Volume::Unc(b"server".to_vec(), s.as_bytes().to_vec());
    assert!(share("x").is_same(&share("x")));
    assert!(!share("x").is_same(&share("y")));
    assert!(!share("x").is_same(&Volume::VerbatimUnc(b"server".to_vec(), b"x".to_vec())));
    assert!(Volume::Disk(67).is_same(&Volume::Disk(67).clone()));
    assert!(!Volume::Disk(67).is_same(&Volume::VerbatimDisk(67)));
    assert!(!Volume::DeviceNs(b"a".to_vec()).is_same(&Volume::Verbatim(b"a".to_vec())));
}
