use shelljougahara::errors::{SessionError, ShellError};
use shelljougahara::{FileSystem, Session};

/// A repository with the user `alice` and her home directory, and a
/// session standing in `/home/alice`.
fn alice() -> (FileSystem, Session) {
    let mut fs = FileSystem::new();
    let uid = fs.add_user("alice").expect("Failed to add user");
    let session = Session::new("/home/alice".to_string(), uid);
    (fs, session)
}

#[test]
fn test_cd_previous_without_history() {
    let (fs, mut session) = alice();
    let r = session.change_directory(&fs, "-");
    match r {
        Err(ShellError::Session(SessionError::NoPreviousWorkingDirectory)) => {}
        other => panic!("Expected NoPreviousWorkingDirectory, got {:?}", other),
    }
    assert_eq!(session.get_current_working_directory(), "/home/alice".to_string());
}

#[test]
fn test_cd_previous_twice_returns() {
    let (fs, mut session) = alice();
    session.change_directory(&fs, "/home").expect("Failed to cd");
    assert_eq!(session.get_current_working_directory(), "/home".to_string());
    session.change_directory(&fs, "-").expect("Failed to cd -");
    assert_eq!(session.get_current_working_directory(), "/home/alice".to_string());
    session.change_directory(&fs, "-").expect("Failed to cd -");
    assert_eq!(session.get_current_working_directory(), "/home".to_string());
}

#[test]
fn test_cd_previous_target_removed() {
    let (mut fs, mut session) = alice();
    fs.create_directory("/tmp").expect("Failed to create");
    session.change_directory(&fs, "/tmp").expect("Failed to cd");
    session.change_directory(&fs, "/").expect("Failed to cd");
    fs.remove_inode("/tmp").expect("Failed to remove");
    let r = session.change_directory(&fs, "-");
    match r {
        Err(ShellError::Session(SessionError::PreviousWorkingDirectoryDoesNotExist)) => {}
        other => panic!("Expected PreviousWorkingDirectoryDoesNotExist, got {:?}", other),
    }
    assert_eq!(session.get_current_working_directory(), "/".to_string());
}

#[test]
fn test_navigation_scenario() {
    // create docs below the home directory, walk in, out, and back
    let (mut fs, mut session) = alice();
    assert_eq!(session.get_current_working_directory(), "/home/alice".to_string());
    session
        .create_directory(&mut fs, "/home/alice/docs")
        .expect("Failed to create docs");
    session.change_directory(&fs, "docs").expect("Failed to cd docs");
    assert_eq!(session.get_current_working_directory(), "/home/alice/docs".to_string());
    session.change_directory(&fs, "..").expect("Failed to cd ..");
    assert_eq!(session.get_current_working_directory(), "/home/alice".to_string());
    session.change_directory(&fs, "-").expect("Failed to cd -");
    assert_eq!(session.get_current_working_directory(), "/home/alice/docs".to_string());
}

#[test]
fn test_cd_home_token() {
    let (fs, mut session) = alice();
    session.change_directory(&fs, "/").expect("Failed to cd /");
    session.change_directory(&fs, "~").expect("Failed to cd ~");
    assert_eq!(session.get_current_working_directory(), "/home/alice".to_string());
}

#[test]
fn test_cd_missing_directory() {
    let (fs, mut session) = alice();
    let r = session.change_directory(&fs, "/non/existent/directory");
    assert!(r.is_err());
    assert_eq!(session.get_current_working_directory(), "/home/alice".to_string());
    assert_eq!(session.get_previous_working_directory(), None);
}

#[test]
fn test_session_create_and_remove_relative() {
    let (mut fs, mut session) = alice();
    session.create_file(&mut fs, "note.txt").expect("Failed to create file");
    assert!(session.find_inode(&fs, "note.txt").is_some());
    assert!(fs.find_absolute_inode("/home/alice/note.txt").is_some());
    session.remove_file(&mut fs, "note.txt").expect("Failed to remove file");
    assert!(session.find_inode(&fs, "note.txt").is_none());
}

#[test]
fn test_change_user() {
    let (fs, mut session) = alice();
    let r = session.change_user(&fs, 99);
    match r {
        Err(ShellError::Session(SessionError::UserNotFound)) => {}
        other => panic!("Expected UserNotFound, got {:?}", other),
    }
    session.change_user(&fs, 0).expect("Failed to change user");
}

#[test]
fn test_history_is_append_only() {
    let (_, mut session) = alice();
    assert_eq!(session.get_history(), Vec::<String>::new());
    session.add_to_history("pwd");
    session.add_to_history("ls");
    session.add_to_history("pwd");
    assert_eq!(
        session.get_history(),
        vec!["pwd".to_string(), "ls".to_string(), "pwd".to_string()]
    );
}

#[test]
fn test_session_mkdir_long_path() {
    let (mut fs, mut session) = alice();
    session.create_directory(&mut fs, "a").expect("Failed to create a");
    session.create_directory(&mut fs, "a/b").expect("Failed to create a/b");
    session.create_directory(&mut fs, "a/b/c").expect("Failed to create a/b/c");
    assert!(fs.find_absolute_inode("/home/alice/a/b/c").is_some());
}

#[test]
fn test_session_create_below_file() {
    let (mut fs, mut session) = alice();
    session.create_file(&mut fs, "plain").expect("Failed to create file");
    let r = session.create_file(&mut fs, "plain/inner");
    match r {
        Err(ShellError::FileSystem(
            shelljougahara::errors::FileSystemError::NotADirectory(name),
        )) => assert_eq!(name, "plain".to_string()),
        other => panic!("Expected NotADirectory, got {:?}", other),
    }
}

#[test]
fn test_session_remove_several() {
    let (mut fs, mut session) = alice();
    session.create_file(&mut fs, "one").expect("Failed to create one");
    session.create_file(&mut fs, "two").expect("Failed to create two");
    session.remove_file(&mut fs, "one").expect("Failed to remove one");
    session.remove_file(&mut fs, "two").expect("Failed to remove two");
    assert!(session.find_inode(&fs, "one").is_none());
    assert!(session.find_inode(&fs, "two").is_none());
}

#[test]
fn test_cd_doubled_root_then_parent() {
    // "//" names the root (empty components are skipped), and ".." from
    // there stays at the root
    let (fs, mut session) = alice();
    session.change_directory(&fs, "//").expect("Failed to cd //");
    assert_eq!(session.get_current_working_directory(), "//".to_string());
    session.change_directory(&fs, "..").expect("Failed to cd ..");
    assert_eq!(session.get_current_working_directory(), "/".to_string());
    session.change_directory(&fs, "..").expect("Failed to cd ..");
    assert_eq!(session.get_current_working_directory(), "/".to_string());
}
