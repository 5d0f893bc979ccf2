//! Requests about users.

use crate::api::backup_routes::Refusal;
use crate::api::bucket_routes::{about, about_text, ok_answer, ok_json};
use crate::auth::rbac::{
    hash_of, hash_text, role_views, RbacManager, RoleAssignment, UserInfo, UserView, SALT_LEN,
};
use crate::json::{json_text, Json, JsonView};
use vstd::prelude::*;
use vstd::string::*;

verus! {

/// A request to create a user.
#[derive(Debug)]
pub struct CreateUserRequest {
    pub username: String,
    pub password: String,
    pub display_name: Option<String>,
    pub roles: Option<Vec<RoleAssignment>>,
}

/// A request to give a user other roles.
#[derive(Debug)]
pub struct UpdateRolesRequest {
    pub roles: Vec<RoleAssignment>,
}

/// A request to give a user another password.
#[derive(Debug)]
pub struct ChangePasswordRequest {
    pub password: String,
}

/// What the audit log says, and the answer.
pub struct UserReport {
    pub audit: String,
    pub answer: Json,
}

/// A user without the password, or the refusal where there is none of that name.
pub fn get_user(rbac: &RbacManager, username: &str) -> (r: std::result::Result<UserInfo, Refusal>)
    requires
        rbac.wf(),
    ensures
        match r {
            Ok(info) => rbac@.contains_key(username@) && info.describes(rbac@[username@]),
            Err(refusal) => !rbac@.contains_key(username@) && refusal.status == 404
                && refusal.error@ == about("User"@, username@, "not found"@),
        },
{
    match rbac.get_user(username) {
        Some(info) => Ok(info),
        None => Err(Refusal { status: 404, error: about_text("User", username, "not found") }),
    }
}

/// The user that a request asks for: shown under the user name, and without roles, where nothing
/// is said.
pub open spec fn requested_user(req: CreateUserRequest, password_hash: Seq<char>, now: i128) -> UserView {
    UserView {
        username: req.username@,
        password_hash,
        display_name: match req.display_name {
            Some(n) => n@,
            None => req.username@,
        },
        roles: match req.roles {
            Some(list) => role_views(list@),
            None => Seq::empty(),
        },
        builtin: false,
        created_at: now,
    }
}

/// Creates a user; a name that is taken is a conflict, and success is answered as created.
pub fn create_user(rbac: &mut RbacManager, req: CreateUserRequest) -> (r: std::result::Result<
    UserReport,
    Refusal,
>)
    requires
        old(rbac).wf(),
    ensures
        final(rbac).wf(),
        match r {
            Ok(report) => {
                let user = final(rbac)@[req.username@];
                &&& !old(rbac)@.contains_key(req.username@)
                &&& user == requested_user(req, user.password_hash, user.created_at)
                &&& final(rbac)@ == old(rbac)@.insert(req.username@, user)
                &&& final(rbac).accepts(req.username@, req.password@)
                &&& report.audit@ == about("User"@, req.username@, "created"@)
                &&& report.answer@ == JsonView::object()
                    .with("status"@, JsonView::Text("ok"@))
                    .with("username"@, JsonView::Text(req.username@))
            },
            Err(refusal) => {
                &&& old(rbac)@.contains_key(req.username@)
                &&& final(rbac)@ == old(rbac)@
                &&& refusal.status == 409
                &&& refusal.error@ == "User '"@ + req.username@ + "' already exists"@
            },
        },
{
    let display_name = match req.display_name {
        Some(n) => n,
        None => req.username.clone(),
    };
    let roles = match req.roles {
        Some(list) => list,
        None => {
            let none: Vec<RoleAssignment> = Vec::new();
            assert(role_views(none@) =~= Seq::empty());
            none
        },
    };
    match rbac.create_user(req.username, req.password, display_name, roles) {
        Ok(user) => {
            let name = user.username.as_str();
            let answer = Json::object()
                .with("status", json_text("ok"))
                .with("username", json_text(name));
            Ok(UserReport { audit: about_text("User", name, "created"), answer })
        },
        Err(error) => Err(Refusal { status: 409, error }),
    }
}

/// Deletes a user.
pub fn delete_user(rbac: &mut RbacManager, username: &str) -> (r: std::result::Result<
    UserReport,
    Refusal,
>)
    requires
        old(rbac).wf(),
    ensures
        final(rbac).wf(),
        match r {
            Ok(report) => {
                &&& old(rbac)@.contains_key(username@) && !old(rbac)@[username@].builtin
                &&& final(rbac)@ == old(rbac)@.remove(username@)
                &&& report.audit@ == about("User"@, username@, "deleted"@)
                &&& report.answer@ == ok_json(about("User"@, username@, "deleted"@))
            },
            Err(refusal) => {
                &&& final(rbac)@ == old(rbac)@
                &&& refusal.status == 400
                &&& if old(rbac)@.contains_key(username@) {
                    old(rbac)@[username@].builtin && refusal.error@
                        == "Cannot delete built-in user '"@ + username@ + "'"@
                } else {
                    refusal.error@ == "User '"@ + username@ + "' not found"@
                }
            },
        },
{
    match rbac.delete_user(username) {
        Ok(()) => {
            let audit = about_text("User", username, "deleted");
            let answer = ok_answer(audit.as_str());
            Ok(UserReport { audit, answer })
        },
        Err(error) => Err(Refusal { status: 400, error }),
    }
}

/// A message that ends in the name of a user.
fn message_for(head: &str, username: &str) -> (r: String)
    ensures
        r@ == head@ + " for user '"@ + username@ + "'"@,
{
    let mut message = head.to_owned();
    message.append(" for user '");
    message.append(username);
    message.append("'");
    message
}

/// Gives a user other roles.
pub fn update_user_roles(rbac: &mut RbacManager, username: &str, req: UpdateRolesRequest) -> (r:
    std::result::Result<Json, Refusal>)
    requires
        old(rbac).wf(),
    ensures
        final(rbac).wf(),
        match r {
            Ok(answer) => {
                &&& old(rbac)@.contains_key(username@)
                &&& final(rbac)@ == old(rbac)@.insert(
                    username@,
                    (UserView { roles: role_views(req.roles@), ..old(rbac)@[username@] }),
                )
                &&& answer@ == ok_json("Roles updated"@ + " for user '"@ + username@ + "'"@)
            },
            Err(refusal) => {
                &&& !old(rbac)@.contains_key(username@)
                &&& final(rbac)@ == old(rbac)@
                &&& refusal.status == 400
                &&& refusal.error@ == "User '"@ + username@ + "' not found"@
            },
        },
{
    match rbac.update_user_roles(username, req.roles) {
        Ok(()) => {
            let message = message_for("Roles updated", username);
            Ok(ok_answer(message.as_str()))
        },
        Err(error) => Err(Refusal { status: 400, error }),
    }
}

/// Gives a user another password.
pub fn change_password(rbac: &mut RbacManager, username: &str, req: ChangePasswordRequest) -> (r:
    std::result::Result<Json, Refusal>)
    requires
        old(rbac).wf(),
    ensures
        final(rbac).wf(),
        r is Ok == old(rbac)@.contains_key(username@),
        match r {
            Ok(answer) => {
                &&& final(rbac).accepts(username@, req.password@)
                &&& exists|salt: Seq<u8>|
                    salt.len() == SALT_LEN && final(rbac)@ == old(rbac)@.insert(
                        username@,
                        (UserView {
                            password_hash: #[trigger] hash_text(salt, hash_of(req.password@, salt)),
                            ..old(rbac)@[username@]
                        }),
                    )
                &&& answer@ == ok_json("Password changed"@ + " for user '"@ + username@ + "'"@)
            },
            Err(refusal) => {
                &&& final(rbac)@ == old(rbac)@
                &&& refusal.status == 400
                &&& refusal.error@ == "User '"@ + username@ + "' not found"@
            },
        },
{
    match rbac.change_password(username, req.password) {
        Ok(()) => {
            let message = message_for("Password changed", username);
            Ok(ok_answer(message.as_str()))
        },
        Err(error) => Err(Refusal { status: 400, error }),
    }
}

// ---- Laws ----

/// A user is made as the request says: shown under the user name, and without roles, where nothing is
/// said; and never as a built-in one.
pub proof fn law_new_users_are_as_asked(req: CreateUserRequest, hash: Seq<char>, now: i128, i: int)
    ensures
        ({
            let user = requested_user(req, hash, now);
            &&& user.username == req.username@
            &&& user.password_hash == hash
            &&& req.display_name is Some ==> user.display_name == req.display_name->0@
            &&& req.display_name is None ==> user.display_name == req.username@
            &&& req.roles is Some ==> user.roles.len() == req.roles->0@.len()
            &&& req.roles is Some && 0 <= i < user.roles.len() ==> user.roles[i].role
                == req.roles->0@[i].role && user.roles[i].bucket == match req.roles->0@[i].bucket {
                Some(b) => Some(b@),
                None => None,
            }
            &&& req.roles is None ==> user.roles.len() == 0
            &&& !user.builtin
            &&& user.created_at == now
        }),
{
}

} // verus!
