use shelljougahara::fs::permissions::{FilePermissionBuilder, FilePermissions, Permission};

#[test]
fn test_mode_round_trip() {
    let p = FilePermissions::from_mode(0o754);
    assert_eq!(p.mode(), 0o754);
    let user = p.user();
    assert!(user.read && user.write && user.execute);
    let group = p.group();
    assert!(group.read && !group.write && group.execute);
    let other = p.other();
    assert!(other.read && !other.write && !other.execute);
}

#[test]
fn test_builder_encodes_bits() {
    let mode = FilePermissionBuilder::new()
        .user_permission(true, true, true)
        .group_permission(true, false, true)
        .other_permission(true, false, false)
        .build();
    assert_eq!(mode.mode(), 0o754);
}

#[test]
fn test_from_permissions() {
    let user = Permission::new(true, true, false);
    let group = Permission::new(true, false, false);
    let other = Permission::new(false, false, false);
    let p = FilePermissions::from_permissions(&user, &group, &other);
    assert_eq!(p.mode(), 0o640);
}

#[test]
fn test_default_mode() {
    let p = FilePermissions::default();
    assert_eq!(p.mode(), 0o600);
}

#[test]
fn test_set_mode() {
    let mut p = FilePermissions::from_mode(0o644);
    p.set_mode(0o400);
    assert_eq!(p.mode(), 0o400);
    let user = p.user();
    assert!(user.read && !user.write && !user.execute);
}
