use shelljougahara::fs::content::{Directory, File, InodeContent};
use shelljougahara::fs::inode::Inode;
use shelljougahara::fs::metadata::InodeMetadata;
use shelljougahara::{FilePermissions, FileSystem};

/// Creates a simple inode with a given name, content, and parent slot.
fn get_simple_inode(
    name: &str,
    content: InodeContent,
    parent: Option<usize>,
) -> Result<Inode, shelljougahara::ShellError> {
    Inode::new(
        name.to_string(),
        content,
        InodeMetadata::new(FilePermissions::from_mode(0o644), 0, 0),
        parent,
    )
}

#[test]
fn test_error_empty_inode_creation() {
    let base = get_simple_inode("", InodeContent::Directory(Directory::new()), None)
        .expect("Failed to create base inode");
    let mut fs = FileSystem::new();
    fs.nodes[0] = base;
    let empty_child = get_simple_inode("", InodeContent::Directory(Directory::new()), Some(0));
    assert!(empty_child.is_err());
}

#[test]
fn test_path_construction() {
    let mut fs = FileSystem::new();
    fs.nodes[0] = get_simple_inode("", InodeContent::Directory(Directory::new()), None)
        .expect("Failed to create root inode");
    let dir = get_simple_inode("test", InodeContent::File(File::new()), Some(0))
        .expect("Failed to create dir inode");
    fs.nodes.push(dir);
    let file = get_simple_inode("test.txt", InodeContent::File(File::new()), Some(1))
        .expect("Failed to create file inode");
    fs.nodes.push(file);

    assert_eq!(fs.path(0).unwrap(), "/".to_string());
    assert_eq!(fs.path(1).unwrap(), "/test".to_string());
    assert_eq!(fs.path(2).unwrap(), "/test/test.txt".to_string());
}

#[test]
fn test_add_and_retrieve_child() {
    let mut fs = FileSystem::new();
    fs.add_child(0, "test", InodeContent::File(File::new()))
        .expect("Failed to add child");
    assert!(fs.find_child_of(0, "test").is_some());
}
