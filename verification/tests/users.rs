use shelljougahara::fs::users::{GroupStore, User, UserStore};

#[test]
fn test_user_store_allocates_increasing_ids() {
    let mut store = UserStore::new();
    let a = store.add_user("a".to_string());
    let b = store.add_user("b".to_string());
    assert_eq!(a, 0);
    assert_eq!(b, 1);
    assert_eq!(store.user(a).unwrap().name, "a".to_string());
    assert_eq!(store.user(b).unwrap().name, "b".to_string());
    assert!(store.user(2).is_none());
}

#[test]
fn test_find_by_username() {
    let mut store = UserStore::new();
    store.add_user("a".to_string());
    let b = store.add_user("b".to_string());
    assert_eq!(store.find_by_username("b"), Some(b));
    assert_eq!(store.find_by_username("c"), None);
}

#[test]
fn test_user_mut_updates_in_place() {
    let mut store = UserStore::new();
    let a = store.add_user("a".to_string());
    store.user_mut(a).unwrap().add_group(7);
    assert_eq!(store.user(a).unwrap().groups, vec![7]);
    assert!(store.user_mut(9).is_none());
}

#[test]
fn test_user_group_membership() {
    let mut user = User::new(3, "u".to_string());
    user.add_group(1);
    user.add_group(2);
    user.add_group(1);
    assert_eq!(user.groups, vec![1, 2, 1]);
    user.remove_group(1);
    assert_eq!(user.groups, vec![2]);
}

#[test]
fn test_group_store() {
    let mut store = GroupStore::new();
    let g = store.add_group("wheel".to_string());
    assert_eq!(g, 0);
    assert_eq!(store.group(g).unwrap().name, "wheel".to_string());
    assert!(store.group(1).is_none());
}
