use oxidedb::auth::rbac::{
    hash_password, hash_password_with, list_available_roles, role_grants_permission, verify_password, Permission,
    RbacManager, Role, RoleAssignment,
};

#[test]
fn test_default_admin_exists() {
    let rbac = RbacManager::new();
    let user = rbac.authenticate("Administrator", "password");
    assert!(user.is_some());
    assert_eq!(user.unwrap().username, "Administrator");
}

#[test]
fn test_wrong_password_fails() {
    let rbac = RbacManager::new();
    assert!(rbac.authenticate("Administrator", "wrong").is_none());
}

#[test]
fn test_create_user_and_authenticate() {
    let mut rbac = RbacManager::new();
    rbac.create_user(
        "testuser".to_string(),
        "testpass".to_string(),
        "Test User".to_string(),
        vec![RoleAssignment { role: Role::BucketFullAccess, bucket: Some("*".to_string()) }],
    )
    .unwrap();
    let user = rbac.authenticate("testuser", "testpass");
    assert!(user.is_some());
}

#[test]
fn test_delete_user() {
    let mut rbac = RbacManager::new();
    rbac.create_user("u1".into(), "p1".into(), "User 1".into(), vec![]).unwrap();
    assert!(rbac.delete_user("u1").is_ok());
    assert!(rbac.authenticate("u1", "p1").is_none());
}

#[test]
fn test_permission_check_admin() {
    let rbac = RbacManager::new();
    assert!(rbac.check_permission("Administrator", &Permission::ClusterManage));
    assert!(rbac.check_permission("Administrator", &Permission::BucketRead("test".into())));
}

#[test]
fn test_permission_check_limited_user() {
    let mut rbac = RbacManager::new();
    rbac.create_user(
        "reader".into(),
        "pass".into(),
        "Reader User".into(),
        vec![RoleAssignment { role: Role::DataReader, bucket: Some("mybucket".to_string()) }],
    )
    .unwrap();
    assert!(rbac.check_permission("reader", &Permission::BucketRead("mybucket".into())));
    assert!(!rbac.check_permission("reader", &Permission::BucketWrite("mybucket".into())));
    assert!(!rbac.check_permission("reader", &Permission::ClusterManage));
}

#[test]
fn test_change_password() {
    let mut rbac = RbacManager::new();
    rbac.create_user("u1".into(), "old".into(), "User 1".into(), vec![]).unwrap();
    rbac.change_password("u1", "new".to_string()).unwrap();
    assert!(rbac.authenticate("u1", "old").is_none());
    assert!(rbac.authenticate("u1", "new").is_some());
}

#[test]
fn test_list_users() {
    let mut rbac = RbacManager::new();
    rbac.create_user("u1".into(), "p1".into(), "User 1".into(), vec![]).unwrap();
    rbac.create_user("u2".into(), "p2".into(), "User 2".into(), vec![]).unwrap();
    let users = rbac.list_users();
    assert!(users.len() >= 3);
}

#[test]
fn test_list_roles() {
    let roles = list_available_roles();
    assert!(roles.len() >= 10);
}

#[test]
fn taken_names_and_builtin_users_are_refused() {
    let mut rbac = RbacManager::new();
    let again = rbac.create_user("Administrator".into(), "x".into(), "Y".into(), vec![]);
    assert_eq!(again.err().unwrap(), "User 'Administrator' already exists");
    assert_eq!(
        rbac.delete_user("Administrator").err().unwrap(),
        "Cannot delete built-in user 'Administrator'"
    );
    assert_eq!(rbac.delete_user("nobody").err().unwrap(), "User 'nobody' not found");
    assert_eq!(
        rbac.change_password("nobody", "x".into()).err().unwrap(),
        "User 'nobody' not found"
    );
}

#[test]
fn hashes_are_salted_and_verify() {
    let a = hash_password("secret");
    let b = hash_password("secret");
    assert_ne!(a, b);
    assert!(verify_password("secret", &a));
    assert!(verify_password("secret", &b));
    assert!(!verify_password("Secret", &a));
    assert!(!verify_password("secret", "no hash"));
    assert!(verify_password("пароль", "пароль"));
    assert!(!verify_password("пароль", "парол"));
    assert!(verify_password("clé$1", "clé$1"));
    assert!(!verify_password("x", "clé$00$00"));
    assert!(!verify_password("x", "1$é$00"));
}

#[test]
fn a_hash_holds_rounds_salt_and_key() {
    let salt = b"0123456789abcdef".to_vec();
    assert_eq!(
        hash_password_with("secret", &salt),
        "10000$30313233343536373839616263646566$\
         eae9ac1e1cf4ca16fe60827f154802aec381fad2be806741fadbc8d8a3c81e7b"
    );
}

#[test]
fn bucket_roles_stay_in_their_bucket() {
    let own = Some("a".to_string());
    assert!(role_grants_permission(&Role::DataWriter, &own, &Permission::BucketWrite("a".into())));
    assert!(!role_grants_permission(&Role::DataWriter, &own, &Permission::BucketWrite("b".into())));
}
