use nxcloud::util::{
    format_destination_pull, format_destination_push, format_source_pull, get_source_file_name,
    join_dedot_path, path_is_file, path_remove_prefix, path_with_file_name, FormatError,
};

#[test]
fn is_file() {
    assert!(path_is_file("file"));
    assert!(path_is_file("file.txt"));
    assert!(!path_is_file("file/"));
    assert!(!path_is_file("file/."));
    assert!(!path_is_file("file/.."));
    assert!(!path_is_file("file/*"));
    assert!(!path_is_file("."));
    assert!(!path_is_file("/"));
}

#[test]
fn remove_prefix() {
    assert_eq!(path_remove_prefix("file"), "file");
    assert_eq!(path_remove_prefix("."), "");
    assert_eq!(path_remove_prefix("./file.txt"), "file.txt");
}

#[test]
fn with_file_name() {
    assert_eq!(path_with_file_name("file", "file.txt"), "file.txt");
    assert_eq!(path_with_file_name(".", "file.txt"), "file.txt");
    assert_eq!(path_with_file_name("foo/bar", "file.txt"), "foo/file.txt");
}

#[test]
fn format_push_name_both() {
    assert_eq!(
        format_destination_push("source.txt", "dest.txt").unwrap(),
        "dest.txt"
    );
}

#[test]
fn format_push_source_is_dir() {
    format_destination_push(".", ".").unwrap_err();

    format_destination_push("/ab/.", "src/files").unwrap_err();

    format_destination_push("/", "src/files").unwrap_err();

    // wildcard not supported (yet)
    format_destination_push("/*", "src/files").unwrap_err();
}

#[test]
fn format_push_dest_is_dir() {
    assert_eq!(format_destination_push("ab/test.txt", ".").unwrap(), "test.txt");

    assert_eq!(
        format_destination_push("ab/test.txt", "/file/to/.").unwrap(),
        "file/to/test.txt"
    );

    assert_eq!(
        format_destination_push("/root/test.txt", "file/to/.").unwrap(),
        "file/to/test.txt"
    );

    assert_eq!(
        format_destination_push("/root/test.txt", "file/to/").unwrap(),
        "file/to/test.txt"
    );

    assert_ne!(
        format_destination_push("/root/test.txt", "file/to/*").unwrap(),
        "file/to/test.txt"
    );
}

#[test]
fn format_push_dest_is_file() {
    assert_eq!(
        format_destination_push("/root/test.txt", "/file/to/bar.txt").unwrap(),
        "file/to/bar.txt"
    );

    assert_eq!(
        format_destination_push("/root/test.txt", "./file/to/bar.txt").unwrap(),
        "file/to/bar.txt"
    );
}

#[test]
fn format_push_dedot() {
    assert_eq!(
        format_destination_push("/root/../test.txt", "/file/to/../bar.txt").unwrap(),
        "file/bar.txt"
    );

    assert_eq!(
        format_destination_push("/root/test.txt", "../../file/to/bar.txt").unwrap(),
        "file/to/bar.txt"
    );
}

#[test]
fn format_dest_pull() {
    assert_eq!(
        format_destination_pull("/ab/test.txt", "foo/bar/bar.txt").unwrap(),
        "foo/bar/bar.txt"
    );

    assert_eq!(
        format_destination_pull("/ab/test.txt", "foo/bar/.").unwrap(),
        "foo/bar/test.txt"
    );
}

#[test]
fn format_src_pull() {
    format_source_pull("/ab/.").unwrap_err();

    assert_eq!(
        format_source_pull(".././..//foo/bar/test.txt").unwrap(),
        "foo/bar/test.txt"
    );
}

#[test]
fn default_path_dedot_join() {
    assert_eq!(join_dedot_path("/", "//"), "/");

    assert_eq!(join_dedot_path("/", "//////test/"), "/test");

    assert_eq!(join_dedot_path("/", "....///..///test/"), "/test");

    assert_eq!(join_dedot_path("/", "/../"), "/");
}

#[test]
fn weird_middle_path_dedot_join() {
    assert_eq!(join_dedot_path("/", "/../"), "/");

    assert_eq!(join_dedot_path("/", "foo//bar/"), "/foo/bar");
}

#[test]
fn whole_dot_fragment_dedot_join() {
    // A whole `.` keeps the start text as given; a whole `..` steps to
    // the start's parent, clamped at the root.
    assert_eq!(join_dedot_path("/a/", "."), "/a/");
    assert_eq!(join_dedot_path("/a/b", ".."), "/a");
    assert_eq!(join_dedot_path("/", ".."), "/");
}

#[test]
fn source_file_name_errors() {
    assert_eq!(
        get_source_file_name("dir/"),
        Err(FormatError::SourceIsDirectory)
    );
    assert_eq!(
        get_source_file_name("trailing."),
        Err(FormatError::SourceIsDirectory)
    );
    assert_eq!(get_source_file_name(""), Err(FormatError::NoFileName));
    assert_eq!(get_source_file_name("a/b/c.txt").unwrap(), "c.txt");
}

#[test]
fn push_round_trip_stable() {
    // Formatting an already-formatted push destination changes nothing.
    let first = format_destination_push("ab/test.txt", "/file/to/.").unwrap();
    let second = format_destination_push("ab/test.txt", &first).unwrap();
    assert_eq!(second, first);

    let first = format_destination_push("data.txt", ".").unwrap();
    let second = format_destination_push("data.txt", &first).unwrap();
    assert_eq!(second, first);
}

#[test]
fn shape_rejection_all_enders() {
    for src in ["x.", "x/", "x*", ".", "/", "*"] {
        assert_eq!(
            format_source_pull(src),
            Err(FormatError::SourceIsDirectory)
        );
        assert_eq!(
            format_destination_push(src, "dest.txt"),
            Err(FormatError::SourceIsDirectory)
        );
    }
}

#[test]
fn pull_source_cleaned() {
    // The pull source is cleaned for the request: leading dots and
    // separators go, interior dot tokens are resolved.
    assert_eq!(format_source_pull("/a/b/../c.txt").unwrap(), "a/c.txt");
    assert_eq!(format_source_pull("./x.txt").unwrap(), "x.txt");
}
