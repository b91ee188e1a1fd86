use nxcloud::remote_path::RemotePathBuf;
use nxcloud::session::{dispatch, is_exit_line, shell_words, Action, CliCommand, Session};

#[test]
fn rm_root_refused_before_anything() {
    // Deleting the root is refused locally, prompt or not.
    let root = RemotePathBuf::new();
    let (action, after) = dispatch(
        CliCommand::Rm { path: "/".to_string(), force: false },
        &root,
    );
    assert!(matches!(action, Action::RootDeletionRefused));
    assert_eq!(after.to_str(), "");

    let (action, _) = dispatch(
        CliCommand::Rm { path: "/".to_string(), force: true },
        &root,
    );
    assert!(matches!(action, Action::RootDeletionRefused));

    // Even a dotted route back to the root is caught.
    let cur = RemotePathBuf::from_str("a/b");
    let (action, _) = dispatch(
        CliCommand::Rm { path: "../..".to_string(), force: false },
        &cur,
    );
    assert!(matches!(action, Action::RootDeletionRefused));
}

#[test]
fn rm_non_root_resolves() {
    let cur = RemotePathBuf::from_str("a");
    let (action, _) = dispatch(
        CliCommand::Rm { path: "b/c".to_string(), force: true },
        &cur,
    );
    match action {
        Action::DoDelete { path, force } => {
            assert_eq!(path.to_str(), "a/b/c");
            assert!(force);
        }
        _ => panic!("expected a delete action"),
    }
}

#[test]
fn cd_from_root_stays_at_root() {
    let mut session = Session::new();
    let action = session.step(CliCommand::Cd { path: "..".to_string() });
    assert!(matches!(action, Action::Nothing));
    assert_eq!(session.current_directory().to_str(), "");
    assert!(!session.current_directory().is_file());
}

#[test]
fn only_cd_moves_the_directory() {
    let mut session = Session::new();
    session.step(CliCommand::Cd { path: "a/b".to_string() });
    assert_eq!(session.current_directory().to_str(), "a/b");

    // Other commands resolve against the directory without persisting.
    let action = session.step(CliCommand::Mkdir { path: "c".to_string() });
    match action {
        Action::DoMkdir { path } => assert_eq!(path.to_str(), "a/b/c"),
        _ => panic!("expected a mkdir action"),
    }
    assert_eq!(session.current_directory().to_str(), "a/b");

    session.step(CliCommand::Cd { path: "..".to_string() });
    assert_eq!(session.current_directory().to_str(), "a");

    session.step(CliCommand::Cd { path: "/x/y".to_string() });
    assert_eq!(session.current_directory().to_str(), "x/y");
}

#[test]
fn push_and_pull_resolve_against_directory() {
    let cur = RemotePathBuf::from_str("work");
    let (action, _) = dispatch(
        CliCommand::Push {
            source: "local.txt".to_string(),
            destination: "remote.txt".to_string(),
        },
        &cur,
    );
    match action {
        Action::DoPush { local, remote } => {
            assert_eq!(local, "local.txt");
            assert_eq!(remote.to_str(), "work/remote.txt");
            assert!(remote.is_file());
        }
        _ => panic!("expected a push action"),
    }

    let (action, _) = dispatch(
        CliCommand::Pull {
            source: "/abs/data.bin".to_string(),
            destination: "here.bin".to_string(),
        },
        &cur,
    );
    match action {
        Action::DoPull { remote, local } => {
            assert_eq!(local, "here.bin");
            assert_eq!(remote.to_str(), "abs/data.bin");
        }
        _ => panic!("expected a pull action"),
    }
}

#[test]
fn ls_uses_directory_when_no_path() {
    let cur = RemotePathBuf::from_str("a/b");
    let (action, _) = dispatch(CliCommand::Ls { path: None, list: true, all: false }, &cur);
    match action {
        Action::DoList { path, list, all } => {
            assert_eq!(path.to_str(), "a/b");
            assert!(list);
            assert!(!all);
        }
        _ => panic!("expected a list action"),
    }

    let (action, _) = dispatch(
        CliCommand::Ls { path: Some("sub".to_string()), list: false, all: true },
        &cur,
    );
    match action {
        Action::DoList { path, .. } => assert_eq!(path.to_str(), "a/b/sub"),
        _ => panic!("expected a list action"),
    }
}

#[test]
fn exit_line_is_case_insensitive() {
    assert!(is_exit_line("exit"));
    assert!(is_exit_line("EXIT"));
    assert!(is_exit_line("Exit"));
    assert!(is_exit_line("eXiT"));
    assert!(!is_exit_line("exit "));
    assert!(!is_exit_line("quit"));
    assert!(!is_exit_line(""));
}

#[test]
fn shell_words_prefixes_program_name() {
    let words = shell_words("ls -l");
    assert_eq!(words, vec!["nxcloud", "ls", "-l"]);

    let words = shell_words("nxcloud ls -l");
    assert_eq!(words, vec!["nxcloud", "ls", "-l"]);

    let words = shell_words("cd some dir");
    assert_eq!(words, vec!["nxcloud", "cd", "some", "dir"]);

    let words = shell_words("");
    assert_eq!(words, vec!["nxcloud", ""]);
}
