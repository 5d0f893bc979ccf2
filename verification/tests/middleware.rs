use oxidedb::auth::middleware::{authenticate_request, extract_basic_auth, require_permission};
use oxidedb::auth::rbac::{Permission, RbacManager, Role, RoleAssignment};

#[test]
fn credentials_are_read_from_the_header() {
    assert_eq!(
        extract_basic_auth(Some("Basic dXNlcjpwYTpzcw==")),
        Some(("user".to_string(), "pa:ss".to_string()))
    );
    assert_eq!(extract_basic_auth(Some("Bearer x")), None);
    assert_eq!(extract_basic_auth(Some("Basic !!!")), None);
    assert_eq!(extract_basic_auth(None), None);
}

#[test]
fn requests_are_authenticated() {
    let mut rbac = RbacManager::new();
    let anonymous = authenticate_request(&rbac, None).ok().unwrap();
    assert_eq!(anonymous.username(), "Administrator");
    let wrong = authenticate_request(&rbac, Some("Basic dXNlcjpwYTpzcw==")).err().unwrap();
    assert_eq!(wrong.status, 401);
    assert_eq!(wrong.message, "Invalid username or password");
    rbac.change_password("Administrator", "other".to_string()).unwrap();
    let late = authenticate_request(&rbac, None).err().unwrap();
    assert_eq!(late.message, "Authentication required. Use Basic auth with valid credentials.");
}

#[test]
fn permissions_are_required() {
    let mut rbac = RbacManager::new();
    rbac.create_user(
        "user".into(),
        "pa:ss".into(),
        "User".into(),
        vec![RoleAssignment { role: Role::DataReader, bucket: Some("b".to_string()) }],
    )
    .unwrap();
    let user = authenticate_request(&rbac, Some("Basic dXNlcjpwYTpzcw==")).ok().unwrap();
    assert!(require_permission(&user, &rbac, &Permission::BucketRead("b".into())).is_ok());
    let error =
        require_permission(&user, &rbac, &Permission::BucketWrite("b".into())).err().unwrap();
    assert_eq!(error.status, 403);
    assert_eq!(error.message, "User 'user' does not have permission: BucketWrite(\"b\")");
}
