use shelljougahara::errors::{FileSystemError, ShellError};
use shelljougahara::fs::content::{File, InodeContent};
use shelljougahara::fs::size::Size;
use shelljougahara::FileSystem;

#[test]
fn test_create_directory_and_find_round_trip() {
    let mut fs = FileSystem::new();
    let id = fs.create_directory("/docs").expect("Failed to create directory");
    assert_eq!(fs.find_absolute_inode("/docs"), Some(id));
    assert_eq!(fs.path(id).unwrap(), "/docs".to_string());

    let nested = fs.create_directory("/docs/letters").expect("Failed to create directory");
    assert_eq!(fs.find_absolute_inode("/docs/letters"), Some(nested));
    assert_eq!(fs.path(nested).unwrap(), "/docs/letters".to_string());
}

#[test]
fn test_create_same_path_twice() {
    let mut fs = FileSystem::new();
    fs.create_directory("/docs").expect("Failed to create directory");
    let before = fs.nodes.len();
    let second = fs.create_directory("/docs");
    match second {
        Err(ShellError::FileSystem(FileSystemError::EntryAlreadyExists(name))) => {
            assert_eq!(name, "docs".to_string());
        }
        other => panic!("Expected EntryAlreadyExists, got {:?}", other),
    }
    // the tree is unchanged
    assert_eq!(fs.nodes.len(), before);
}

#[test]
fn test_create_file_in_missing_directory() {
    let mut fs = FileSystem::new();
    let r = fs.create_file("/missing/file.txt");
    match r {
        Err(ShellError::FileSystem(FileSystemError::EntryNotFound(name))) => {
            assert_eq!(name, "missing".to_string());
        }
        other => panic!("Expected EntryNotFound, got {:?}", other),
    }
}

#[test]
fn test_create_below_file_is_not_a_directory() {
    let mut fs = FileSystem::new();
    fs.create_file("/notes").expect("Failed to create file");
    let r = fs.create_directory("/notes/inner");
    match r {
        Err(ShellError::FileSystem(FileSystemError::NotADirectory(name))) => {
            assert_eq!(name, "notes".to_string());
        }
        other => panic!("Expected NotADirectory, got {:?}", other),
    }
}

#[test]
fn test_create_with_dot_components() {
    let mut fs = FileSystem::new();
    fs.create_directory("/a").expect("Failed to create directory");
    let id = fs.create_directory("/a/./../a/sub").expect("Failed to create directory");
    assert_eq!(fs.find_absolute_inode("/a/sub"), Some(id));
}

#[test]
fn test_remove_only_child() {
    let mut fs = FileSystem::new();
    fs.create_directory("/dir").expect("Failed to create directory");
    let parent = fs.find_absolute_inode("/dir").unwrap();
    fs.create_file("/dir/only").expect("Failed to create file");
    fs.remove_inode("/dir/only").expect("Failed to remove");
    assert!(fs.find_child_of(parent, "only").is_none());
    assert!(fs.find_absolute_inode("/dir/only").is_none());
    match &fs.nodes[parent].content {
        InodeContent::Directory(d) => assert!(d.is_empty()),
        _ => panic!("Expected a directory"),
    }
}

#[test]
fn test_remove_missing_entry() {
    let mut fs = FileSystem::new();
    fs.create_directory("/dir").expect("Failed to create directory");
    let r = fs.remove_inode("/dir/ghost");
    match r {
        Err(ShellError::FileSystem(FileSystemError::EntryNotFound(name))) => {
            assert_eq!(name, "ghost".to_string());
        }
        other => panic!("Expected EntryNotFound, got {:?}", other),
    }
}

#[test]
fn test_remove_in_missing_parent() {
    let mut fs = FileSystem::new();
    let r = fs.remove_inode("/ghost/child");
    match r {
        Err(ShellError::FileSystem(FileSystemError::DirectoryNotFound(_))) => {}
        other => panic!("Expected DirectoryNotFound, got {:?}", other),
    }
}

#[test]
fn test_find_is_literal_without_dot_handling() {
    let mut fs = FileSystem::new();
    fs.create_directory("/a").expect("Failed to create directory");
    // the find walk treats `..` as a literal child name
    assert!(fs.find_absolute_inode("/a/..").is_none());
    // repeated slashes are skipped
    assert!(fs.find_absolute_inode("//a//").is_some());
}

#[test]
fn test_add_user_creates_home() {
    let mut fs = FileSystem::new();
    let uid = fs.add_user("bob").expect("Failed to add user");
    assert_eq!(uid, 1);
    let home = fs.find_absolute_inode("/home").expect("Missing /home");
    assert!(matches!(fs.nodes[home].content, InodeContent::Directory(_)));
    let bob_home = fs.find_absolute_inode("/home/bob").expect("Missing /home/bob");
    assert_eq!(fs.path(bob_home).unwrap(), "/home/bob".to_string());

    // the home directory is owned by the fresh user and group
    let user = fs.get_user(uid).expect("Missing user");
    assert_eq!(user.name, "bob".to_string());
    let gid = fs.nodes[bob_home].metadata.group;
    let group = fs.get_group(gid).expect("Missing group");
    assert_eq!(group.name, "bob".to_string());
    assert_eq!(fs.nodes[bob_home].metadata.owner, uid);

    // a second user of the same name is rejected
    let again = fs.add_user("bob");
    match again {
        Err(ShellError::FileSystem(FileSystemError::EntryAlreadyExists(name))) => {
            assert_eq!(name, "bob".to_string());
        }
        other => panic!("Expected EntryAlreadyExists, got {:?}", other),
    }
}

#[test]
fn test_new_filesystem_has_root_identities() {
    let fs = FileSystem::new();
    assert_eq!(fs.nodes.len(), 1);
    assert_eq!(fs.get_user(0).unwrap().name, "root".to_string());
    assert_eq!(fs.get_group(0).unwrap().name, "root".to_string());
    assert_eq!(fs.nodes[0].metadata.permissions.mode(), 0o755);
    assert_eq!(fs.path(0).unwrap(), "/".to_string());
}

#[test]
fn test_error_messages() {
    let e = FileSystemError::EntryAlreadyExists("docs".to_string());
    assert_eq!(e.message(), "docs: File exists".to_string());
    let e = FileSystemError::NotADirectory("notes".to_string());
    assert_eq!(e.message(), "'notes': Not a directory".to_string());
    let e = ShellError::Internal("boom".to_string());
    assert_eq!(e.message(), "Internal error: boom".to_string());
}

#[test]
fn test_new_file_size_is_zero() {
    let file = File::new();
    assert_eq!(file.size(), 0);
    assert_eq!(InodeContent::File(File::new()).size(), 0);
}

#[test]
fn test_duplicate_user_leaves_tree_unchanged() {
    let mut fs = FileSystem::new();
    fs.add_user("bob").expect("Failed to add user");
    let nodes_before = fs.nodes.len();
    let users_before = fs.users.users.len();
    let groups_before = fs.groups.groups.len();
    let again = fs.add_user("bob");
    assert!(again.is_err());
    assert_eq!(fs.nodes.len(), nodes_before);
    assert_eq!(fs.users.users.len(), users_before);
    assert_eq!(fs.groups.groups.len(), groups_before);
}
