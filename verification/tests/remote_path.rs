use nxcloud::remote_path::RemotePathBuf;

#[test]
fn clean_dedot() {
    let path = RemotePathBuf::from_str("../../foo/./bar/test.txt");
    assert_eq!(path.to_str(), "foo/bar/test.txt");
    assert!(path.is_file());

    let path = RemotePathBuf::from_str("/ab/.");
    assert_eq!(path.to_str(), "ab");
    assert!(!path.is_file());
}

#[test]
fn clean_deslash() {
    let path = RemotePathBuf::from_str("//////ab");
    assert_eq!(path.to_str(), "ab");

    let path = RemotePathBuf::from_str("//////");
    assert_eq!(path.to_str(), "");
    assert!(!path.is_file());

    let path = RemotePathBuf::from_str(".....///..///test/");
    assert_eq!(path.to_str(), "test");

    let path = RemotePathBuf::from_str("/test///////");
    assert_eq!(path.to_str(), "test");
}

#[test]
fn clean_join() {
    let path1 = RemotePathBuf::from_str("path");
    let path = path1.join("path");
    assert_eq!(path.to_str(), "path/path");

    // try moving back
    let path1 = RemotePathBuf::from_str("path/path");
    let path = path1.join("../path");
    assert_eq!(path.to_str(), "path/path");

    // not too far
    let path1 = RemotePathBuf::from_str("path/path");
    let path = path1.join("../../../../path");
    assert_eq!(path.to_str(), "path");

    // single dots
    let path1 = RemotePathBuf::from_str("path");
    let path = path1.join("././././path");
    assert_eq!(path.to_str(), "path/path");

    // weird second path
    let path1 = RemotePathBuf::from_str("root");
    let path = path1.join("///path///");
    assert_eq!(path.to_str(), "path");

    // weird second path
    let path1 = RemotePathBuf::from_str("long/path/that/we/are/at");
    let path = path1.join("/new/path");
    assert_eq!(path.to_str(), "new/path");
}

#[test]
fn new_is_root() {
    let path = RemotePathBuf::new();
    assert_eq!(path.to_str(), "");
    assert!(!path.is_file());
    assert_eq!(path.as_path().len(), 0);
}

#[test]
fn normalize_idempotent() {
    // Re-parsing the printed form of a normalized path changes nothing.
    let once = RemotePathBuf::from_str(".....///..///a//b/./c.txt");
    let twice = RemotePathBuf::from_str(&once.to_str());
    assert_eq!(once.to_str(), twice.to_str());
    assert_eq!(once.is_file(), twice.is_file());
}

#[test]
fn literal_dot_runs_kept() {
    // Only the exact `.` and `..` tokens are operators; other dot runs
    // are ordinary segments.
    let path = RemotePathBuf::from_str(".....");
    assert_eq!(path.to_str(), ".....");
    assert!(path.is_file());

    let path = RemotePathBuf::from_str("a/.../b");
    assert_eq!(path.to_str(), "a/.../b");
}

#[test]
fn join_clamps_at_root() {
    let base = RemotePathBuf::from_str("a/b");
    let joined = base.join("../../../../../x");
    assert_eq!(joined.to_str(), "x");

    let root = RemotePathBuf::new();
    let joined = root.join("../..");
    assert_eq!(joined.to_str(), "");
    assert!(!joined.is_file());
}

#[test]
fn join_absolute_overrides() {
    let a = RemotePathBuf::from_str("some/deep/dir/");
    let b = RemotePathBuf::from_str("elsewhere.txt");
    let via_a = a.join("/new/path");
    let via_b = b.join("/new/path");
    let direct = RemotePathBuf::from_str("/new/path");
    assert_eq!(via_a.to_str(), direct.to_str());
    assert_eq!(via_b.to_str(), direct.to_str());
    assert_eq!(via_a.is_file(), direct.is_file());
}

#[test]
fn join_whole_dot_fragments() {
    // A whole-fragment `.` keeps the path, shape included; `..` steps to
    // the parent and is always directory-shaped.
    let base = RemotePathBuf::from_str("a/b/c.txt");
    let same = base.join(".");
    assert_eq!(same.to_str(), "a/b/c.txt");
    assert!(same.is_file());

    let parent = base.join("..");
    assert_eq!(parent.to_str(), "a/b");
    assert!(!parent.is_file());
}

#[test]
fn join_fragment_shape_decides() {
    let base = RemotePathBuf::from_str("dir/");
    assert!(!base.is_file());
    let file = base.join("name.txt");
    assert!(file.is_file());
    assert_eq!(file.to_str(), "dir/name.txt");

    let dir = base.join("sub/");
    assert!(!dir.is_file());
    assert_eq!(dir.to_str(), "dir/sub");
}

#[test]
fn set_file_name_replaces_or_appends() {
    let mut file = RemotePathBuf::from_str("a/b/old.txt");
    file.set_file_name("new.txt");
    assert_eq!(file.to_str(), "a/b/new.txt");
    assert!(file.is_file());

    let mut dir = RemotePathBuf::from_str("a/b/");
    dir.set_file_name("new.txt");
    assert_eq!(dir.to_str(), "a/b/new.txt");
    assert!(dir.is_file());

    let mut root = RemotePathBuf::new();
    root.set_file_name("new.txt");
    assert_eq!(root.to_str(), "new.txt");
    assert!(root.is_file());
}

#[test]
fn empty_components_dropped() {
    let path = RemotePathBuf::from_str("a//b///c");
    assert_eq!(path.to_str(), "a/b/c");
}
