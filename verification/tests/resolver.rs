use shelljougahara::fs::resolver::resolve_path;

#[test]
fn test_absolute_path() {
    let path = "/usr/bin";
    let home = "/home/user";
    let cwd = "/current";

    assert_eq!(resolve_path(path, home, cwd), "/usr/bin".to_string());
}

#[test]
fn test_home_directory_tilde() {
    let path = "~";
    let home = "/home/user";
    let cwd = "/current";

    assert_eq!(resolve_path(path, home, cwd), "/home/user".to_string());
}

#[test]
fn test_parent_directory() {
    let path = "..";
    let home = "/home/user";
    let cwd = "/current/dir";

    assert_eq!(resolve_path(path, home, cwd), "/current".to_string());
}

#[test]
fn test_current_directory() {
    let path = ".";
    let home = "/home/user";
    let cwd = "/current/dir";

    assert_eq!(resolve_path(path, home, cwd), "/current/dir".to_string());
}

#[test]
fn test_home_relative_path() {
    let path = "~/documents";
    let home = "/home/user";
    let cwd = "/current";

    assert_eq!(resolve_path(path, home, cwd), "/home/user/documents".to_string());
}

#[test]
fn test_relative_path() {
    let path = "subdir/file.txt";
    let home = "/home/user";
    let cwd = "/current";

    assert_eq!(resolve_path(path, home, cwd), "/current/subdir/file.txt".to_string());
}

#[test]
fn test_parent_of_root_is_root() {
    assert_eq!(resolve_path("..", "/home/u", "/"), "/".to_string());
    assert_eq!(resolve_path("../", "/home/u", "/"), "/".to_string());
    assert_eq!(resolve_path("..", "/home/u", "/a/b"), "/a".to_string());
}

#[test]
fn test_home_for_any_cwd() {
    assert_eq!(resolve_path("~", "/home/u", "/"), "/home/u".to_string());
    assert_eq!(resolve_path("~", "/home/u", "/x/y/z"), "/home/u".to_string());
    assert_eq!(resolve_path("~/x", "/home/u", "/anywhere"), "/home/u/x".to_string());
}

#[test]
fn test_parent_with_trailing_slashes() {
    assert_eq!(resolve_path("..", "/home/u", "/a/b/"), "/a".to_string());
    assert_eq!(resolve_path("./", "/home/u", "/a/b"), "/a/b".to_string());
}

#[test]
fn test_parent_of_all_slash_cwd_is_root() {
    // any spelling of the root keeps itself as its parent
    assert_eq!(resolve_path("..", "/home/u", "//"), "/".to_string());
    assert_eq!(resolve_path("..", "/home/u", "///"), "/".to_string());
    // and a doubled leading slash still drops only the last component
    assert_eq!(resolve_path("..", "/home/u", "//a"), "/".to_string());
}
