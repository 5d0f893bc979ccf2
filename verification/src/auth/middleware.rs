//! Who sends a request: Basic authentication and permission checks.

use crate::auth::rbac::{may, Permission, PermissionView, RbacManager, User};
use crate::crypto::{base64_decode, base64_decoded};
use crate::text::{chars_of, opt_str, text_from_utf8, text_of};
use crate::text_split::{find_char, find_char_from, has_prefix, starts_with, text_after};
use vstd::prelude::*;
use vstd::string::*;
use vstd::utf8::{
    decode_utf8, encode_utf8, encode_utf8_decode_utf8, encode_utf8_valid_utf8, valid_utf8,
};

verus! {

/// The user who sends a request.
#[derive(Debug)]
pub struct AuthUser(pub User);

/// The answer to a request that is not let through: a message and an HTTP status code.
#[derive(Debug)]
pub struct AuthError {
    pub message: String,
    pub status: u16,
}

/// A text in the notation of a Rust string literal.
pub uninterp spec fn debug_of(s: Seq<char>) -> Seq<char>;

/// A text in the notation of a Rust string literal.
///
/// Trusted: the `Debug` notation of a `str` depends on the text alone. Which characters it escapes
/// is left unsaid.
#[verifier::external_body]
pub(crate) fn debug_text(s: &str) -> (r: String)
    ensures
        r@ == debug_of(s@),
{
    format!("{:?}", s)
}

/// The notation of a permission in messages.
pub open spec fn permission_words(p: PermissionView) -> Seq<char> {
    match p {
        PermissionView::BucketRead(b) => "BucketRead("@ + debug_of(b) + ")"@,
        PermissionView::BucketWrite(b) => "BucketWrite("@ + debug_of(b) + ")"@,
        PermissionView::BucketManage(b) => "BucketManage("@ + debug_of(b) + ")"@,
        PermissionView::BucketFlush(b) => "BucketFlush("@ + debug_of(b) + ")"@,
        PermissionView::QueryExecute => "QueryExecute"@,
        PermissionView::QueryManage => "QueryManage"@,
        PermissionView::FtsRead => "FtsRead"@,
        PermissionView::FtsManage => "FtsManage"@,
        PermissionView::IndexManage => "IndexManage"@,
        PermissionView::ClusterRead => "ClusterRead"@,
        PermissionView::ClusterManage => "ClusterManage"@,
        PermissionView::XdcrManage => "XdcrManage"@,
        PermissionView::BackupManage => "BackupManage"@,
        PermissionView::UserManage => "UserManage"@,
        PermissionView::AuditRead => "AuditRead"@,
    }
}

fn with_bucket(head: &str, bucket: &String) -> (r: String)
    ensures
        r@ == head@ + debug_of(bucket@) + ")"@,
{
    let mut out = head.to_owned();
    out.append(debug_text(bucket.as_str()).as_str());
    out.append(")");
    out
}

/// The notation of a permission in messages.
fn permission_text(p: &Permission) -> (r: String)
    ensures
        r@ == permission_words(p@),
{
    match p {
        Permission::BucketRead(b) => with_bucket("BucketRead(", b),
        Permission::BucketWrite(b) => with_bucket("BucketWrite(", b),
        Permission::BucketManage(b) => with_bucket("BucketManage(", b),
        Permission::BucketFlush(b) => with_bucket("BucketFlush(", b),
        Permission::QueryExecute => "QueryExecute".to_owned(),
        Permission::QueryManage => "QueryManage".to_owned(),
        Permission::FtsRead => "FtsRead".to_owned(),
        Permission::FtsManage => "FtsManage".to_owned(),
        Permission::IndexManage => "IndexManage".to_owned(),
        Permission::ClusterRead => "ClusterRead".to_owned(),
        Permission::ClusterManage => "ClusterManage".to_owned(),
        Permission::XdcrManage => "XdcrManage".to_owned(),
        Permission::BackupManage => "BackupManage".to_owned(),
        Permission::UserManage => "UserManage".to_owned(),
        Permission::AuditRead => "AuditRead".to_owned(),
    }
}

/// Name and password in what follows `Basic ` in an authorization header: the two sides of the
/// first colon.
pub open spec fn credentials_in(encoded: Seq<char>) -> Option<(Seq<char>, Seq<char>)> {
    match base64_decoded(encoded) {
        Some(bytes) => if valid_utf8(bytes) {
            let text = decode_utf8(bytes);
            match find_char(text, ':', 0) {
                Some(p) => Some(
                    (text.subrange(0, p), text.subrange(p + 1, text.len() as int)),
                ),
                None => None,
            }
        } else {
            None
        },
        None => None,
    }
}

/// Name and password in an authorization header.
pub open spec fn basic_credentials(header: Option<Seq<char>>) -> Option<(Seq<char>, Seq<char>)> {
    match header {
        Some(h) => if starts_with(h, "Basic "@) {
            credentials_in(h.subrange(6, h.len() as int))
        } else {
            None
        },
        None => None,
    }
}

/// Name and password in an authorization header.
pub fn extract_basic_auth(header: Option<&str>) -> (r: Option<(String, String)>)
    ensures
        match r {
            Some((username, password)) => basic_credentials(opt_str(header)) == Some(
                (username@, password@),
            ),
            None => basic_credentials(opt_str(header)) is None,
        },
{
    proof {
        reveal_strlit("Basic ");
    }
    let h = match header {
        Some(h) => h,
        None => {
            return None;
        },
    };
    if !has_prefix(h, "Basic ") {
        return None;
    }
    let encoded = text_after(h, 6);
    let bytes = match base64_decode(encoded.as_str()) {
        Some(b) => b,
        None => {
            return None;
        },
    };
    let text = match text_from_utf8(bytes) {
        Some(t) => t,
        None => {
            return None;
        },
    };
    let cs = chars_of(text.as_str());
    let n: usize = cs.len();
    match find_char_from(&cs, ':', 0) {
        Some(p) => Some((text_of(&cs, 0, p), text_of(&cs, p + 1, n))),
        None => None,
    }
}

/// The user who sends a request with that authorization header: the one whose credentials it
/// holds, or the administrator where it holds none and the default password is in use.
pub fn authenticate_request(rbac: &RbacManager, header: Option<&str>) -> (r: Result<
    AuthUser,
    AuthError,
>)
    requires
        rbac.wf(),
    ensures
        match basic_credentials(opt_str(header)) {
            Some((username, password)) => match r {
                Ok(user) => rbac.accepts(username, password) && user.0@ == rbac@[username],
                Err(e) => !rbac.accepts(username, password) && e.status == 401 && e.message@
                    == "Invalid username or password"@,
            },
            None => match r {
                Ok(user) => rbac.accepts("Administrator"@, "password"@) && user.0@
                    == rbac@["Administrator"@],
                Err(e) => !rbac.accepts("Administrator"@, "password"@) && e.status == 401
                    && e.message@
                    == "Authentication required. Use Basic auth with valid credentials."@,
            },
        },
{
    match extract_basic_auth(header) {
        Some((username, password)) => match rbac.authenticate(username.as_str(), password.as_str()) {
            Some(user) => Ok(AuthUser(user)),
            None => Err(
                AuthError { message: "Invalid username or password".to_owned(), status: 401 },
            ),
        },
        None => match rbac.authenticate("Administrator", "password") {
            Some(user) => Ok(AuthUser(user)),
            None => Err(
                AuthError {
                    message: "Authentication required. Use Basic auth with valid credentials.".to_owned(),
                    status: 401,
                },
            ),
        },
    }
}

impl AuthUser {
    pub fn username(&self) -> (r: &str)
        ensures
            r@ == self.0@.username,
    {
        self.0.username.as_str()
    }

    /// Whether the user may do something.
    pub fn has_permission(&self, rbac: &RbacManager, perm: &Permission) -> (r: bool)
        requires
            rbac.wf(),
        ensures
            r == (rbac@.contains_key(self.0@.username) && may(rbac@[self.0@.username], perm@)),
    {
        rbac.check_permission(self.0.username.as_str(), perm)
    }
}

/// Lets a user through who may do something.
pub fn require_permission(user: &AuthUser, rbac: &RbacManager, permission: &Permission) -> (r:
    Result<(), AuthError>)
    requires
        rbac.wf(),
    ensures
        r is Ok == (rbac@.contains_key(user.0@.username) && may(
            rbac@[user.0@.username],
            permission@,
        )),
        match r {
            Ok(_) => true,
            Err(e) => e.status == 403 && e.message@ == "User '"@ + user.0@.username
                + "' does not have permission: "@ + permission_words(permission@),
        },
{
    if rbac.check_permission(user.0.username.as_str(), permission) {
        return Ok(());
    }
    let mut message = "User '".to_owned();
    message.append(user.0.username.as_str());
    message.append("' does not have permission: ");
    message.append(permission_text(permission).as_str());
    Err(AuthError { message, status: 403 })
}

// ---- Laws ----

/// A header of `Basic` and a name and a password with a colon between them, in base64, holds that
/// name and that password; the name has no colon, the password may.
pub proof fn law_headers_hold_name_and_password(
    encoded: Seq<char>,
    name: Seq<char>,
    password: Seq<char>,
)
    requires
        base64_decoded(encoded) == Some(encode_utf8(name + seq![':'] + password)),
        !name.contains(':'),
    ensures
        basic_credentials(Some("Basic "@ + encoded)) == Some((name, password)),
{
    reveal_strlit("Basic ");
    let h = "Basic "@ + encoded;
    assert(h.subrange(0, 6) =~= "Basic "@);
    assert(h.subrange(6, h.len() as int) =~= encoded);
    let text = name + seq![':'] + password;
    encode_utf8_valid_utf8(text);
    encode_utf8_decode_utf8(text);
    let n = name.len() as int;
    assert forall|k: int| 0 <= k < n implies text[k] != ':' by {
        assert(text[k] == name[k]);
        assert(name.contains(name[k]));
    }
    lemma_first_colon(text, 0, n);
    assert(text.subrange(0, n) =~= name);
    assert(text.subrange(n + 1, text.len() as int) =~= password);
}

proof fn lemma_first_colon(s: Seq<char>, i: int, p: int)
    requires
        0 <= i <= p < s.len(),
        s[p] == ':',
        forall|k: int| i <= k < p ==> s[k] != ':',
    ensures
        find_char(s, ':', i) == Some(p),
    decreases p - i,
{
    if i < p {
        lemma_first_colon(s, i + 1, p);
    }
}

proof fn lemma_no_colon(s: Seq<char>, i: int)
    requires
        0 <= i,
        !s.contains(':'),
    ensures
        find_char(s, ':', i) is None,
    decreases s.len() - i,
{
    if i < s.len() {
        assert(s.contains(s[i]));
        lemma_no_colon(s, i + 1);
    }
}

/// Other headers hold no credentials: none at all, one of another scheme, one that is no base64,
/// and one without a colon.
pub proof fn law_other_headers_hold_nothing(header: Seq<char>, encoded: Seq<char>, text: Seq<char>)
    ensures
        basic_credentials(None) is None,
        !(header.len() >= 6 && header.take(6) == "Basic "@) ==> basic_credentials(Some(header)) is None,
        base64_decoded(encoded) is None ==> basic_credentials(Some("Basic "@ + encoded)) is None,
        base64_decoded(encoded) == Some(encode_utf8(text)) && !text.contains(':')
            ==> basic_credentials(Some("Basic "@ + encoded)) is None,
{
    reveal_strlit("Basic ");
    let h = "Basic "@ + encoded;
    assert(h.subrange(6, h.len() as int) =~= encoded);
    if header.len() >= 6 {
        assert(header.take(6) =~= header.subrange(0, 6));
    }
    encode_utf8_valid_utf8(text);
    encode_utf8_decode_utf8(text);
    if !text.contains(':') {
        lemma_no_colon(text, 0);
    }
}

/// A permission is named in messages by its own name, with the bucket behind it where it is for one.
pub proof fn law_permissions_have_their_words(b: Seq<char>)
    ensures
        permission_words(PermissionView::BucketRead(b)) == "BucketRead("@ + debug_of(b) + ")"@,
        permission_words(PermissionView::BucketWrite(b)) == "BucketWrite("@ + debug_of(b) + ")"@,
        permission_words(PermissionView::BucketManage(b)) == "BucketManage("@ + debug_of(b) + ")"@,
        permission_words(PermissionView::BucketFlush(b)) == "BucketFlush("@ + debug_of(b) + ")"@,
        permission_words(PermissionView::QueryExecute) == "QueryExecute"@,
        permission_words(PermissionView::QueryManage) == "QueryManage"@,
        permission_words(PermissionView::FtsRead) == "FtsRead"@,
        permission_words(PermissionView::FtsManage) == "FtsManage"@,
        permission_words(PermissionView::IndexManage) == "IndexManage"@,
        permission_words(PermissionView::ClusterRead) == "ClusterRead"@,
        permission_words(PermissionView::ClusterManage) == "ClusterManage"@,
        permission_words(PermissionView::XdcrManage) == "XdcrManage"@,
        permission_words(PermissionView::BackupManage) == "BackupManage"@,
        permission_words(PermissionView::UserManage) == "UserManage"@,
        permission_words(PermissionView::AuditRead) == "AuditRead"@,
{
}

} // verus!
