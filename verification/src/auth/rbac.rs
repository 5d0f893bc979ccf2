//! Role-based access control: users, their passwords and what their roles allow.

use crate::be_bytes::same_bytes;
use crate::clock::utc_now;
use crate::crypto::{pbkdf2_sha256, pbkdf2_sha256_of, random_bytes, MAX_DERIVED};
use crate::hex::{
    hex_decode, hex_decoded, hex_encode, hex_of, is_hex_char, is_readable, law_hex_round_trip,
    lemma_hex_chars,
};
use crate::strmap::StrMap;
use crate::text::{
    chars_of, copy_opt, dec, digit, law_parse_undoes_decimal, opt_is, opt_text, parse_u32,
    parsed_u32, push_dec, same_text, text_of,
};
use crate::text_split::{find_char, find_char_from, has_prefix, starts_with};
use vstd::prelude::*;
use vstd::string::*;
use vstd::utf8::{
    encode_utf8, encode_utf8_valid_utf8, is_ascii_chars, is_ascii_chars_encode_utf8,
    is_char_boundary, is_char_boundary_iff_not_is_continuation_byte,
    is_char_boundary_start_end_of_seq, is_continuation_byte, valid_utf8,
};

verus! {

/// The number of rounds with which passwords are hashed.
pub const PBKDF2_ITERATIONS: u32 = 10_000;

/// The length of a salt.
pub const SALT_LEN: usize = 16;

/// The length of a password hash.
pub const HASH_LEN: usize = 32;

/// Predefined roles.
#[derive(Debug, Clone, Copy, PartialEq, Eq, Structural)]
pub enum Role {
    /// Full access to everything.
    Admin,
    /// Full access to a bucket.
    BucketFullAccess,
    DataReader,
    DataWriter,
    DataReadWrite,
    QuerySelect,
    QueryManage,
    FtsSearcher,
    FtsAdmin,
    ClusterAdmin,
    ClusterMonitor,
    XdcrAdmin,
    BackupAdmin,
    /// Read-only access to everything.
    ReadOnlyAdmin,
}

/// Something that a user may want to do; the text is a bucket name.
#[derive(Debug)]
pub enum Permission {
    BucketRead(String),
    BucketWrite(String),
    BucketManage(String),
    BucketFlush(String),
    QueryExecute,
    QueryManage,
    FtsRead,
    FtsManage,
    IndexManage,
    ClusterRead,
    ClusterManage,
    XdcrManage,
    BackupManage,
    UserManage,
    AuditRead,
}

/// What a [`Permission`] stands for.
pub enum PermissionView {
    BucketRead(Seq<char>),
    BucketWrite(Seq<char>),
    BucketManage(Seq<char>),
    BucketFlush(Seq<char>),
    QueryExecute,
    QueryManage,
    FtsRead,
    FtsManage,
    IndexManage,
    ClusterRead,
    ClusterManage,
    XdcrManage,
    BackupManage,
    UserManage,
    AuditRead,
}

impl View for Permission {
    type V = PermissionView;

    open spec fn view(&self) -> PermissionView {
        match *self {
            Permission::BucketRead(b) => PermissionView::BucketRead(b@),
            Permission::BucketWrite(b) => PermissionView::BucketWrite(b@),
            Permission::BucketManage(b) => PermissionView::BucketManage(b@),
            Permission::BucketFlush(b) => PermissionView::BucketFlush(b@),
            Permission::QueryExecute => PermissionView::QueryExecute,
            Permission::QueryManage => PermissionView::QueryManage,
            Permission::FtsRead => PermissionView::FtsRead,
            Permission::FtsManage => PermissionView::FtsManage,
            Permission::IndexManage => PermissionView::IndexManage,
            Permission::ClusterRead => PermissionView::ClusterRead,
            Permission::ClusterManage => PermissionView::ClusterManage,
            Permission::XdcrManage => PermissionView::XdcrManage,
            Permission::BackupManage => PermissionView::BackupManage,
            Permission::UserManage => PermissionView::UserManage,
            Permission::AuditRead => PermissionView::AuditRead,
        }
    }
}

/// A role, for one bucket or for all.
#[derive(Debug, Clone)]
pub struct RoleAssignment {
    pub role: Role,
    /// The bucket; none for all buckets.
    pub bucket: Option<String>,
}

/// What a [`RoleAssignment`] stands for.
#[verifier::ext_equal]
pub struct AssignmentView {
    pub role: Role,
    pub bucket: Option<Seq<char>>,
}

impl View for RoleAssignment {
    type V = AssignmentView;

    open spec fn view(&self) -> AssignmentView {
        AssignmentView { role: self.role, bucket: opt_text(self.bucket) }
    }
}

/// What a list of role assignments stands for.
pub open spec fn role_views(v: Seq<RoleAssignment>) -> Seq<AssignmentView> {
    Seq::new(v.len(), |i: int| v[i]@)
}

/// A copy of a list of role assignments.
fn copy_roles(v: &Vec<RoleAssignment>) -> (r: Vec<RoleAssignment>)
    ensures
        r@ == v@,
{
    let mut out: Vec<RoleAssignment> = Vec::new();
    let mut i: usize = 0;
    while i < v.len()
        invariant
            i <= v@.len(),
            out@ == v@.take(i as int),
        decreases v@.len() - i,
    {
        out.push(RoleAssignment { role: v[i].role, bucket: copy_opt(&v[i].bucket) });
        i = i + 1;
        assert(out@ =~= v@.take(i as int));
    }
    assert(out@ =~= v@);
    out
}

/// A database user. The time is in nanoseconds since the Unix epoch.
#[derive(Debug, Clone)]
pub struct User {
    pub username: String,
    pub password_hash: String,
    pub display_name: String,
    pub roles: Vec<RoleAssignment>,
    /// Whether this is a built-in user.
    pub builtin: bool,
    pub created_at: i128,
}

/// What a [`User`] stands for.
#[verifier::ext_equal]
pub struct UserView {
    pub username: Seq<char>,
    pub password_hash: Seq<char>,
    pub display_name: Seq<char>,
    pub roles: Seq<AssignmentView>,
    pub builtin: bool,
    pub created_at: i128,
}

impl View for User {
    type V = UserView;

    open spec fn view(&self) -> UserView {
        UserView {
            username: self.username@,
            password_hash: self.password_hash@,
            display_name: self.display_name@,
            roles: role_views(self.roles@),
            builtin: self.builtin,
            created_at: self.created_at,
        }
    }
}

impl User {
    /// A copy.
    pub fn copy(&self) -> (r: User)
        ensures
            r@ == self@,
    {
        User {
            username: self.username.clone(),
            password_hash: self.password_hash.clone(),
            display_name: self.display_name.clone(),
            roles: copy_roles(&self.roles),
            builtin: self.builtin,
            created_at: self.created_at,
        }
    }

    /// The user without the password.
    pub fn info(&self) -> (r: UserInfo)
        ensures
            r.describes(self@),
    {
        UserInfo {
            username: self.username.clone(),
            display_name: self.display_name.clone(),
            roles: copy_roles(&self.roles),
            builtin: self.builtin,
            created_at: self.created_at,
        }
    }
}

/// A user without the password.
#[derive(Debug, Clone)]
pub struct UserInfo {
    pub username: String,
    pub display_name: String,
    pub roles: Vec<RoleAssignment>,
    pub builtin: bool,
    pub created_at: i128,
}

impl UserInfo {
    /// Whether this is what is told about a user.
    pub open spec fn describes(self, user: UserView) -> bool {
        &&& self.username@ == user.username
        &&& self.display_name@ == user.display_name
        &&& role_views(self.roles@) == user.roles
        &&& self.builtin == user.builtin
        &&& self.created_at == user.created_at
    }
}

// ---- Passwords ----

/// The stored form of a hashed password: rounds, salt and hash, separated by dollar signs.
pub open spec fn hash_text(salt: Seq<u8>, hash: Seq<u8>) -> Seq<char> {
    dec(PBKDF2_ITERATIONS as nat) + "$"@ + hex_of(salt) + "$"@ + hex_of(hash)
}

/// The hash of a password.
pub open spec fn hash_of(password: Seq<char>, salt: Seq<u8>) -> Seq<u8> {
    pbkdf2_sha256_of(encode_utf8(password), salt, PBKDF2_ITERATIONS, HASH_LEN as nat)
}

/// Whether a password belongs to a stored text: the text itself, where it has no two dollar signs,
/// else a password with the hash that the text holds.
pub open spec fn matches_stored(password: Seq<char>, stored: Seq<char>) -> bool {
    match find_char(stored, '$', 0) {
        None => password == stored,
        Some(a) => match find_char(stored, '$', a + 1) {
            None => password == stored,
            Some(b) => {
                let rounds = parsed_u32(stored.subrange(0, a));
                let salt = hex_decoded(encode_utf8(stored.subrange(a + 1, b)));
                let hash = hex_decoded(
                    encode_utf8(stored.subrange(b + 1, stored.len() as int)),
                );
                &&& rounds is Some
                &&& salt is Some
                &&& hash is Some
                &&& pbkdf2_sha256_of(encode_utf8(password), salt->0, rounds->0, hash->0.len())
                    == hash->0
            },
        },
    }
}

/// Whether a stored text can be checked: where it has the form of a hash, its salt can be read, and
/// after that its hash, which is not absurdly long.
pub open spec fn is_sound(stored: Seq<char>) -> bool {
    match find_char(stored, '$', 0) {
        None => true,
        Some(a) => match find_char(stored, '$', a + 1) {
            None => true,
            Some(b) => {
                let salt = encode_utf8(stored.subrange(a + 1, b));
                let hash = encode_utf8(stored.subrange(b + 1, stored.len() as int));
                parsed_u32(stored.subrange(0, a)) is Some ==> {
                    &&& is_readable(salt)
                    &&& hex_decoded(salt) is Some ==> is_readable(hash)
                    &&& hex_decoded(salt) is Some && hex_decoded(hash) is Some ==> hex_decoded(
                        hash,
                    )->0.len() <= MAX_DERIVED
                }
            },
        },
    }
}

proof fn lemma_ascii_is_readable(s: Seq<char>)
    requires
        is_ascii_chars(s),
    ensures
        is_readable(encode_utf8(s)),
{
    is_ascii_chars_encode_utf8(s);
    encode_utf8_valid_utf8(s);
    let b = encode_utf8(s);
    assert forall|i: int| 0 <= i <= b.len() implies #[trigger] is_char_boundary(b, i) by {
        if i == b.len() || i == 0 {
            is_char_boundary_start_end_of_seq(b);
        } else {
            is_char_boundary_iff_not_is_continuation_byte(b, i);
            assert(b[i] == s[i] as u8);
            assert(!is_continuation_byte(b[i]));
        }
    }
}

/// Whether a password belongs to a stored text.
pub fn verify_password(password: &str, stored: &str) -> (r: bool)
    requires
        is_sound(stored@),
    ensures
        r == matches_stored(password@, stored@),
{
    let cs = chars_of(stored);
    let n: usize = cs.len();
    let a: usize = match find_char_from(&cs, '$', 0) {
        Some(p) => p,
        None => {
            return same_text(password, stored);
        },
    };
    let b: usize = match find_char_from(&cs, '$', a + 1) {
        Some(p) => p,
        None => {
            return same_text(password, stored);
        },
    };
    let rounds_text = text_of(&cs, 0, a);
    let salt_text = text_of(&cs, a + 1, b);
    let hash_part = text_of(&cs, b + 1, n);
    let rounds: u32 = match parse_u32(rounds_text.as_str()) {
        Some(x) => x,
        None => {
            return false;
        },
    };
    let salt = match hex_decode(salt_text.as_str()) {
        Some(x) => x,
        None => {
            return false;
        },
    };
    let expected = match hex_decode(hash_part.as_str()) {
        Some(x) => x,
        None => {
            return false;
        },
    };
    let result = pbkdf2_sha256(password.as_bytes(), salt.as_slice(), rounds, expected.len());
    same_bytes(&result, &expected)
}

proof fn lemma_find_char(s: Seq<char>, c: char, i: int, p: int)
    requires
        0 <= i <= p < s.len(),
        s[p] == c,
        forall|k: int| i <= k < p ==> s[k] != c,
    ensures
        find_char(s, c, i) == Some(p),
    decreases p - i,
{
    if i < p {
        lemma_find_char(s, c, i + 1, p);
    }
}

proof fn lemma_dec_chars(n: nat)
    ensures
        forall|i: int| 0 <= i < dec(n).len() ==> '0' <= #[trigger] dec(n)[i] <= '9',
    decreases n,
{
    if n >= 10 {
        lemma_dec_chars(n / 10);
        let rest = dec(n / 10);
        assert forall|i: int| 0 <= i < dec(n).len() implies '0' <= #[trigger] dec(n)[i] <= '9' by {
            if i < rest.len() {
                assert(dec(n)[i] == rest[i]);
            } else {
                assert(dec(n)[i] == digit(n % 10));
            }
        }
    } else {
        assert(dec(n) == seq![digit(n)]);
    }
}

/// The stored form of a hashed password can be taken apart again.
proof fn lemma_hash_text(salt: Seq<u8>, hash: Seq<u8>)
    ensures
        ({
            let s = hash_text(salt, hash);
            let a = dec(PBKDF2_ITERATIONS as nat).len() as int;
            let b = a + 1 + hex_of(salt).len();
            &&& find_char(s, '$', 0) == Some(a)
            &&& find_char(s, '$', a + 1) == Some(b)
            &&& s.subrange(0, a) == dec(PBKDF2_ITERATIONS as nat)
            &&& s.subrange(a + 1, b) == hex_of(salt)
            &&& s.subrange(b + 1, s.len() as int) == hex_of(hash)
        }),
{
    reveal_strlit("$");
    let d = dec(PBKDF2_ITERATIONS as nat);
    let s = hash_text(salt, hash);
    let a = d.len() as int;
    let b = a + 1 + hex_of(salt).len();
    lemma_dec_chars(PBKDF2_ITERATIONS as nat);
    lemma_hex_chars(salt);
    lemma_hex_chars(hash);
    assert forall|k: int| 0 <= k < a implies s[k] != '$' by {
        assert(s[k] == d[k]);
    }
    lemma_find_char(s, '$', 0, a);
    assert forall|k: int| a + 1 <= k < b implies s[k] != '$' by {
        assert(s[k] == hex_of(salt)[k - a - 1]);
    }
    lemma_find_char(s, '$', a + 1, b);
    assert(s.subrange(0, a) =~= d);
    assert(s.subrange(a + 1, b) =~= hex_of(salt));
    assert(s.subrange(b + 1, s.len() as int) =~= hex_of(hash));
}

proof fn lemma_hash_is_sound(salt: Seq<u8>, hash: Seq<u8>)
    requires
        hash.len() <= MAX_DERIVED,
    ensures
        is_sound(hash_text(salt, hash)),
{
    lemma_hash_text(salt, hash);
    law_hex_round_trip(salt);
    law_hex_round_trip(hash);
    lemma_hex_is_ascii(salt);
    lemma_hex_is_ascii(hash);
    lemma_ascii_is_readable(hex_of(salt));
    lemma_ascii_is_readable(hex_of(hash));
}

proof fn lemma_hex_is_ascii(bytes: Seq<u8>)
    ensures
        is_ascii_chars(hex_of(bytes)),
{
    let text = hex_of(bytes);
    lemma_hex_chars(bytes);
    assert forall|i: int| 0 <= i < text.len() implies '\0' <= #[trigger] text[i] <= '\u{7f}' by {
        assert(is_hex_char(text[i]));
    }
}

proof fn lemma_stored_hash(password: Seq<char>, other: Seq<char>, salt: Seq<u8>)
    requires
        hash_of(password, salt).len() == HASH_LEN,
    ensures
        matches_stored(other, hash_text(salt, hash_of(password, salt))) == (hash_of(other, salt)
            == hash_of(password, salt)),
{
    let hash = hash_of(password, salt);
    lemma_hash_text(salt, hash);
    law_parse_undoes_decimal(PBKDF2_ITERATIONS);
    law_hex_round_trip(salt);
    law_hex_round_trip(hash);
}

/// Hashes a password with a salt. The stored text accepts the password, and of other passwords
/// those with the same hash.
pub fn hash_password_with(password: &str, salt: &Vec<u8>) -> (r: String)
    requires
        salt@.len() == SALT_LEN,
    ensures
        r@ == hash_text(salt@, hash_of(password@, salt@)),
        is_sound(r@),
        matches_stored(password@, r@),
        forall|other: Seq<char>| #[trigger]
            matches_stored(other, r@) == (hash_of(other, salt@) == hash_of(password@, salt@)),
{
    let result = pbkdf2_sha256(
        password.as_bytes(),
        salt.as_slice(),
        PBKDF2_ITERATIONS,
        HASH_LEN,
    );
    let mut out = String::new();
    push_dec(&mut out, PBKDF2_ITERATIONS as u64);
    out.append("$");
    out.append(hex_encode(salt.as_slice()).as_str());
    out.append("$");
    out.append(hex_encode(result.as_slice()).as_str());
    proof {
        assert(out@ =~= hash_text(salt@, result@));
        lemma_hash_text(salt@, result@);
        lemma_hash_is_sound(salt@, result@);
        assert forall|other: Seq<char>| #[trigger] matches_stored(other, out@) == (hash_of(
            other,
            salt@,
        ) == hash_of(password@, salt@)) by {
            lemma_stored_hash(password@, other, salt@);
        }
    }
    out
}

/// Hashes a password with a random salt. The stored text accepts the password.
pub fn hash_password(password: &str) -> (r: String)
    ensures
        is_sound(r@),
        matches_stored(password@, r@),
        exists|salt: Seq<u8>|
            salt.len() == SALT_LEN && r@ == #[trigger] hash_text(salt, hash_of(password@, salt))
                && forall|other: Seq<char>| #[trigger]
                matches_stored(other, r@) == (hash_of(other, salt) == hash_of(password@, salt)),
{
    let salt = random_bytes(SALT_LEN);
    hash_password_with(password, &salt)
}

// ---- Permissions ----

/// Whether a role that is meant for a bucket, or for all, covers a bucket.
pub open spec fn covers(scope: Option<Seq<char>>, bucket: Seq<char>) -> bool {
    scope is None || scope == Some(bucket)
}

/// Whether a role grants a permission.
pub open spec fn grants(role: Role, scope: Option<Seq<char>>, p: PermissionView) -> bool {
    match role {
        Role::Admin => true,
        Role::ClusterAdmin => match p {
            PermissionView::ClusterRead
            | PermissionView::ClusterManage
            | PermissionView::UserManage
            | PermissionView::AuditRead => true,
            _ => false,
        },
        Role::ClusterMonitor => match p {
            PermissionView::ClusterRead | PermissionView::AuditRead => true,
            _ => false,
        },
        Role::ReadOnlyAdmin => match p {
            PermissionView::ClusterRead
            | PermissionView::AuditRead
            | PermissionView::FtsRead
            | PermissionView::BucketRead(_) => true,
            _ => false,
        },
        Role::BucketFullAccess => match p {
            PermissionView::BucketRead(b) => covers(scope, b),
            PermissionView::BucketWrite(b) => covers(scope, b),
            PermissionView::BucketManage(b) => covers(scope, b),
            PermissionView::BucketFlush(b) => covers(scope, b),
            PermissionView::QueryExecute
            | PermissionView::QueryManage
            | PermissionView::IndexManage => scope is Some,
            _ => false,
        },
        Role::DataReader => match p {
            PermissionView::BucketRead(b) => covers(scope, b),
            _ => false,
        },
        Role::DataWriter => match p {
            PermissionView::BucketWrite(b) => covers(scope, b),
            _ => false,
        },
        Role::DataReadWrite => match p {
            PermissionView::BucketRead(b) => covers(scope, b),
            PermissionView::BucketWrite(b) => covers(scope, b),
            _ => false,
        },
        Role::QuerySelect => p == PermissionView::QueryExecute,
        Role::QueryManage => match p {
            PermissionView::QueryExecute
            | PermissionView::QueryManage
            | PermissionView::IndexManage => true,
            _ => false,
        },
        Role::FtsSearcher => p == PermissionView::FtsRead,
        Role::FtsAdmin => match p {
            PermissionView::FtsRead | PermissionView::FtsManage => true,
            _ => false,
        },
        Role::XdcrAdmin => match p {
            PermissionView::XdcrManage | PermissionView::ClusterRead => true,
            _ => false,
        },
        Role::BackupAdmin => match p {
            PermissionView::BackupManage | PermissionView::ClusterRead => true,
            _ => false,
        },
    }
}

fn covers_bucket(scope: &Option<String>, bucket: &String) -> (r: bool)
    ensures
        r == covers(opt_text(*scope), bucket@),
{
    scope.is_none() || opt_is(scope, bucket.as_str())
}

/// Whether a role, for one bucket or for all, grants a permission.
pub fn role_grants_permission(role: &Role, bucket_scope: &Option<String>, permission: &Permission)
    -> (r: bool)
    ensures
        r == grants(*role, opt_text(*bucket_scope), permission@),
{
    match role {
        Role::Admin => true,
        Role::ClusterAdmin => matches!(
            permission,
            Permission::ClusterRead
            | Permission::ClusterManage
            | Permission::UserManage
            | Permission::AuditRead
        ),
        Role::ClusterMonitor => matches!(
            permission,
            Permission::ClusterRead | Permission::AuditRead
        ),
        Role::ReadOnlyAdmin => matches!(
            permission,
            Permission::ClusterRead
            | Permission::AuditRead
            | Permission::FtsRead
            | Permission::BucketRead(_)
        ),
        Role::BucketFullAccess => match permission {
            Permission::BucketRead(b)
            | Permission::BucketWrite(b)
            | Permission::BucketManage(b)
            | Permission::BucketFlush(b) => covers_bucket(bucket_scope, b),
            Permission::QueryExecute | Permission::QueryManage | Permission::IndexManage => {
                bucket_scope.is_some()
            },
            _ => false,
        },
        Role::DataReader => match permission {
            Permission::BucketRead(b) => covers_bucket(bucket_scope, b),
            _ => false,
        },
        Role::DataWriter => match permission {
            Permission::BucketWrite(b) => covers_bucket(bucket_scope, b),
            _ => false,
        },
        Role::DataReadWrite => match permission {
            Permission::BucketRead(b) | Permission::BucketWrite(b) => covers_bucket(
                bucket_scope,
                b,
            ),
            _ => false,
        },
        Role::QuerySelect => matches!(permission, Permission::QueryExecute),
        Role::QueryManage => matches!(
            permission,
            Permission::QueryExecute | Permission::QueryManage | Permission::IndexManage
        ),
        Role::FtsSearcher => matches!(permission, Permission::FtsRead),
        Role::FtsAdmin => matches!(permission, Permission::FtsRead | Permission::FtsManage),
        Role::XdcrAdmin => matches!(permission, Permission::XdcrManage | Permission::ClusterRead),
        Role::BackupAdmin => matches!(
            permission,
            Permission::BackupManage | Permission::ClusterRead
        ),
    }
}

// ---- Users ----

/// The users, by name.
pub struct RbacManager {
    pub users: StrMap<User>,
}

/// What the users of an [`RbacManager`] stand for.
pub open spec fn user_views(m: Map<Seq<char>, User>) -> Map<Seq<char>, UserView> {
    Map::new(|k: Seq<char>| m.contains_key(k), |k: Seq<char>| m[k]@)
}

/// The built-in administrator.
pub open spec fn administrator(password_hash: Seq<char>, now: i128) -> UserView {
    UserView {
        username: "Administrator"@,
        password_hash,
        display_name: "Built-in Administrator"@,
        roles: seq![AssignmentView { role: Role::Admin, bucket: None }],
        builtin: true,
        created_at: now,
    }
}

/// Whether a user may do something: one of the roles grants it.
pub open spec fn may(user: UserView, p: PermissionView) -> bool {
    exists|i: int|
        0 <= i < user.roles.len() && grants((#[trigger] user.roles[i]).role, user.roles[i].bucket, p)
}

impl View for RbacManager {
    type V = Map<Seq<char>, UserView>;

    open spec fn view(&self) -> Map<Seq<char>, UserView> {
        user_views(self.users@)
    }
}

impl RbacManager {
    /// Every user stands under their name, with a password that can be checked.
    pub open spec fn wf(self) -> bool {
        &&& self.users.wf()
        &&& forall|k: Seq<char>| #[trigger]
            self@.contains_key(k) ==> self@[k].username == k && is_sound(self@[k].password_hash)
    }

    /// Whether a name and a password belong together.
    pub open spec fn accepts(self, username: Seq<char>, password: Seq<char>) -> bool {
        self@.contains_key(username) && matches_stored(password, self@[username].password_hash)
    }

    /// The administrator alone, with a given salt for the default password and a time.
    pub fn new_with(salt: &Vec<u8>, now: i128) -> (r: Self)
        requires
            salt@.len() == SALT_LEN,
        ensures
            r.wf(),
            r@ == Map::<Seq<char>, UserView>::empty().insert(
                "Administrator"@,
                administrator(hash_text(salt@, hash_of("password"@, salt@)), now),
            ),
            r.accepts("Administrator"@, "password"@),
            forall|other: Seq<char>| #[trigger]
                r.accepts("Administrator"@, other) == (hash_of(other, salt@) == hash_of(
                    "password"@,
                    salt@,
                )),
    {
        let mut roles: Vec<RoleAssignment> = Vec::new();
        roles.push(RoleAssignment { role: Role::Admin, bucket: None });
        assert(role_views(roles@) =~= seq![AssignmentView { role: Role::Admin, bucket: None }]);
        let admin = User {
            username: "Administrator".to_owned(),
            password_hash: hash_password_with("password", salt),
            display_name: "Built-in Administrator".to_owned(),
            roles,
            builtin: true,
            created_at: now,
        };
        let ghost view = admin@;
        let mut users: StrMap<User> = StrMap::new();
        users.insert("Administrator".to_owned(), admin);
        let r = RbacManager { users };
        assert(r@ =~= Map::<Seq<char>, UserView>::empty().insert("Administrator"@, view));
        r
    }

    /// The administrator alone, with the default password.
    pub fn new() -> (r: Self)
        ensures
            r.wf(),
            r@.dom() == set!["Administrator"@],
            r@["Administrator"@] == administrator(
                r@["Administrator"@].password_hash,
                r@["Administrator"@].created_at,
            ),
            r.accepts("Administrator"@, "password"@),
            exists|salt: Seq<u8>|
                salt.len() == SALT_LEN && forall|other: Seq<char>| #[trigger]
                    r.accepts("Administrator"@, other) == (hash_of(other, salt) == #[trigger] hash_of(
                        "password"@,
                        salt,
                    )),
    {
        let salt = random_bytes(SALT_LEN);
        let now: i128 = utc_now();
        let r = Self::new_with(&salt, now);
        assert(r@.dom() =~= set!["Administrator"@]);
        assert(hash_of("password"@, salt@) == hash_of("password"@, salt@));
        r
    }

    /// The user to whom a name and a password belong.
    pub fn authenticate(&self, username: &str, password: &str) -> (r: Option<User>)
        requires
            self.wf(),
        ensures
            match r {
                Some(user) => self.accepts(username@, password@) && user@ == self@[username@],
                None => !self.accepts(username@, password@),
            },
    {
        match self.users.get(username) {
            Some(user) => {
                assert(self@.contains_key(username@));
                if verify_password(password, user.password_hash.as_str()) {
                    Some(user.copy())
                } else {
                    None
                }
            },
            None => None,
        }
    }

    /// Whether a user may do something.
    pub fn check_permission(&self, username: &str, permission: &Permission) -> (r: bool)
        requires
            self.wf(),
        ensures
            r == (self@.contains_key(username@) && may(self@[username@], permission@)),
    {
        match self.users.get(username) {
            Some(user) => {
                let ghost view = self@[username@];
                let mut i: usize = 0;
                while i < user.roles.len()
                    invariant
                        i <= user.roles@.len(),
                        view == user@,
                        self@.contains_key(username@),
                        view == self@[username@],
                        forall|k: int|
                            0 <= k < i ==> !grants(
                                (#[trigger] view.roles[k]).role,
                                view.roles[k].bucket,
                                permission@,
                            ),
                    decreases user.roles@.len() - i,
                {
                    assert(view.roles[i as int] == user.roles@[i as int]@);
                    if role_grants_permission(
                        &user.roles[i].role,
                        &user.roles[i].bucket,
                        permission,
                    ) {
                        return true;
                    }
                    i = i + 1;
                }
                false
            },
            None => false,
        }
    }

    /// Creates a user with a given salt and at a given time.
    pub fn create_user_with(
        &mut self,
        username: String,
        password: String,
        display_name: String,
        roles: Vec<RoleAssignment>,
        salt: &Vec<u8>,
        now: i128,
    ) -> (r: Result<User, String>)
        requires
            old(self).wf(),
            salt@.len() == SALT_LEN,
        ensures
            final(self).wf(),
            match r {
                Ok(user) => {
                    &&& !old(self)@.contains_key(username@)
                    &&& user@ == (UserView {
                        username: username@,
                        password_hash: hash_text(salt@, hash_of(password@, salt@)),
                        display_name: display_name@,
                        roles: role_views(roles@),
                        builtin: false,
                        created_at: now,
                    })
                    &&& final(self)@ == old(self)@.insert(username@, user@)
                    &&& final(self).accepts(username@, password@)
                    &&& forall|other: Seq<char>| #[trigger]
                        final(self).accepts(username@, other) == (hash_of(other, salt@) == hash_of(
                            password@,
                            salt@,
                        ))
                },
                Err(msg) => {
                    &&& old(self)@.contains_key(username@)
                    &&& final(self)@ == old(self)@
                    &&& msg@ == "User '"@ + username@ + "' already exists"@
                },
            },
    {
        let ghost before = self@;
        if self.users.contains_key(username.as_str()) {
            let mut msg = "User '".to_owned();
            msg.append(username.as_str());
            msg.append("' already exists");
            return Err(msg);
        }
        let user = User {
            username: username.clone(),
            password_hash: hash_password_with(password.as_str(), salt),
            display_name,
            roles,
            builtin: false,
            created_at: now,
        };
        let kept = user.copy();
        self.users.insert(username, kept);
        proof {
            assert(self@ =~= before.insert(username@, user@));
            assert forall|k: Seq<char>| #[trigger] self@.contains_key(k) implies self@[k].username
                == k && is_sound(self@[k].password_hash) by {
                if k != username@ {
                    assert(before.contains_key(k));
                }
            }
        }
        Ok(user)
    }

    /// Creates a user.
    pub fn create_user(
        &mut self,
        username: String,
        password: String,
        display_name: String,
        roles: Vec<RoleAssignment>,
    ) -> (r: Result<User, String>)
        requires
            old(self).wf(),
        ensures
            final(self).wf(),
            r is Ok == !old(self)@.contains_key(username@),
            match r {
                Ok(user) => {
                    &&& user@ == (UserView {
                        username: username@,
                        password_hash: user@.password_hash,
                        display_name: display_name@,
                        roles: role_views(roles@),
                        builtin: false,
                        created_at: user@.created_at,
                    })
                    &&& final(self)@ == old(self)@.insert(username@, user@)
                    &&& final(self).accepts(username@, password@)
                    &&& exists|salt: Seq<u8>|
                        salt.len() == SALT_LEN && user@.password_hash == #[trigger] hash_text(
                            salt,
                            hash_of(password@, salt),
                        )
                },
                Err(msg) => final(self)@ == old(self)@ && msg@ == "User '"@ + username@
                    + "' already exists"@,
            },
    {
        let salt = random_bytes(SALT_LEN);
        let now: i128 = utc_now();
        self.create_user_with(username, password, display_name, roles, &salt, now)
    }

    /// Deletes a user who is not built in.
    pub fn delete_user(&mut self, username: &str) -> (r: Result<(), String>)
        requires
            old(self).wf(),
        ensures
            final(self).wf(),
            match r {
                Ok(_) => {
                    &&& old(self)@.contains_key(username@)
                    &&& !old(self)@[username@].builtin
                    &&& final(self)@ == old(self)@.remove(username@)
                },
                Err(msg) => {
                    &&& final(self)@ == old(self)@
                    &&& if old(self)@.contains_key(username@) {
                        old(self)@[username@].builtin && msg@ == "Cannot delete built-in user '"@
                            + username@ + "'"@
                    } else {
                        msg@ == "User '"@ + username@ + "' not found"@
                    }
                },
            },
    {
        let ghost before = self@;
        let builtin = match self.users.get(username) {
            Some(user) => user.builtin,
            None => {
                return Err(not_found(username));
            },
        };
        if builtin {
            let mut msg = "Cannot delete built-in user '".to_owned();
            msg.append(username);
            msg.append("'");
            return Err(msg);
        }
        let gone = self.users.remove(username);
        proof {
            assert(self@ =~= before.remove(username@));
            assert forall|k: Seq<char>| #[trigger] self@.contains_key(k) implies self@[k].username
                == k && is_sound(self@[k].password_hash) by {
                assert(before.contains_key(k));
            }
        }
        Ok(())
    }

    /// All users, without passwords.
    pub fn list_users(&self) -> (r: Vec<UserInfo>)
        requires
            self.wf(),
        ensures
            r@.len() == self@.len(),
            forall|i: int|
                0 <= i < r@.len() ==> self@.contains_key((#[trigger] r@[i]).username@)
                    && r@[i].describes(self@[r@[i].username@]),
            forall|i: int, j: int|
                0 <= i < j < r@.len() ==> (#[trigger] r@[i]).username@ != (
                #[trigger] r@[j]).username@,
            forall|k: Seq<char>| #[trigger]
                self@.contains_key(k) ==> exists|i: int|
                    0 <= i < r@.len() && (#[trigger] r@[i]).username@ == k,
    {
        let mut out: Vec<UserInfo> = Vec::new();
        let mut i: usize = 0;
        while i < self.users.keys.len()
            invariant
                i <= self.users.keys@.len(),
                self.wf(),
                out@.len() == i,
                forall|k: int|
                    0 <= k < i ==> (#[trigger] out@[k]).username@ == self.users.keys@[k]@
                        && self@.contains_key(out@[k].username@) && out@[k].describes(
                        self@[out@[k].username@],
                    ),
            decreases self.users.keys@.len() - i,
        {
            proof {
                self.users.lemma_place(i as int);
                assert(self@.contains_key(self.users.keys@[i as int]@));
            }
            out.push(self.users.vals[i].info());
            i = i + 1;
        }
        proof {
            self.users.lemma_len();
            assert(self@.dom() =~= self.users@.dom());
            assert forall|a: int, b: int| 0 <= a < b < out@.len() implies (
            #[trigger] out@[a]).username@ != (#[trigger] out@[b]).username@ by {
                assert(self.users.keys@[a]@ != self.users.keys@[b]@);
            }
            assert forall|k: Seq<char>| #[trigger] self@.contains_key(k) implies exists|i: int|
                0 <= i < out@.len() && (#[trigger] out@[i]).username@ == k by {
                assert(self.users@.contains_key(k));
                let p = choose|p: int| self.users.at(k, p);
                assert(out@[p].username@ == k);
            }
        }
        out
    }

    /// A user without the password.
    pub fn get_user(&self, username: &str) -> (r: Option<UserInfo>)
        requires
            self.wf(),
        ensures
            match r {
                Some(info) => self@.contains_key(username@) && info.describes(self@[username@]),
                None => !self@.contains_key(username@),
            },
    {
        match self.users.get(username) {
            Some(user) => Some(user.info()),
            None => None,
        }
    }

    /// Puts a changed user in the place of the old one.
    fn put_back(&mut self, username: &str, user: User)
        requires
            old(self).wf(),
            user@.username == username@,
            is_sound(user@.password_hash),
        ensures
            final(self).wf(),
            final(self)@ == old(self)@.insert(username@, user@),
    {
        let ghost before = self@;
        let ghost view = user@;
        self.users.insert(username.to_owned(), user);
        proof {
            assert(self@ =~= before.insert(username@, view));
            assert forall|k: Seq<char>| #[trigger] self@.contains_key(k) implies self@[k].username
                == k && is_sound(self@[k].password_hash) by {
                if k != username@ {
                    assert(before.contains_key(k));
                }
            }
        }
    }

    /// Changes the roles of a user.
    pub fn update_user_roles(&mut self, username: &str, roles: Vec<RoleAssignment>) -> (r: Result<
        (),
        String,
    >)
        requires
            old(self).wf(),
        ensures
            final(self).wf(),
            match r {
                Ok(_) => old(self)@.contains_key(username@) && final(self)@ == old(self)@.insert(
                    username@,
                    (UserView { roles: role_views(roles@), ..old(self)@[username@] }),
                ),
                Err(msg) => !old(self)@.contains_key(username@) && final(self)@ == old(self)@
                    && msg@ == "User '"@ + username@ + "' not found"@,
            },
    {
        let mut user = match self.users.get(username) {
            Some(u) => u.copy(),
            None => {
                return Err(not_found(username));
            },
        };
        assert(self@.contains_key(username@));
        user.roles = roles;
        self.put_back(username, user);
        Ok(())
    }

    /// Changes the password of a user, with a given salt.
    pub fn change_password_with(&mut self, username: &str, new_password: String, salt: &Vec<u8>)
        -> (r: Result<(), String>)
        requires
            old(self).wf(),
            salt@.len() == SALT_LEN,
        ensures
            final(self).wf(),
            match r {
                Ok(_) => {
                    &&& old(self)@.contains_key(username@)
                    &&& final(self)@ == old(self)@.insert(
                        username@,
                        (UserView {
                            password_hash: hash_text(salt@, hash_of(new_password@, salt@)),
                            ..old(self)@[username@]
                        }),
                    )
                    &&& final(self).accepts(username@, new_password@)
                    &&& forall|other: Seq<char>| #[trigger]
                        final(self).accepts(username@, other) == (hash_of(other, salt@) == hash_of(
                            new_password@,
                            salt@,
                        ))
                },
                Err(msg) => !old(self)@.contains_key(username@) && final(self)@ == old(self)@
                    && msg@ == "User '"@ + username@ + "' not found"@,
            },
    {
        let mut user = match self.users.get(username) {
            Some(u) => u.copy(),
            None => {
                return Err(not_found(username));
            },
        };
        assert(self@.contains_key(username@));
        user.password_hash = hash_password_with(new_password.as_str(), salt);
        self.put_back(username, user);
        Ok(())
    }

    /// Changes the password of a user.
    pub fn change_password(&mut self, username: &str, new_password: String) -> (r: Result<
        (),
        String,
    >)
        requires
            old(self).wf(),
        ensures
            final(self).wf(),
            r is Ok == old(self)@.contains_key(username@),
            match r {
                Ok(_) => final(self).accepts(username@, new_password@) && exists|salt: Seq<u8>|
                    salt.len() == SALT_LEN && final(self)@ == old(self)@.insert(
                        username@,
                        (UserView {
                            password_hash: #[trigger] hash_text(salt, hash_of(new_password@, salt)),
                            ..old(self)@[username@]
                        }),
                    ),
                Err(msg) => final(self)@ == old(self)@ && msg@ == "User '"@ + username@
                    + "' not found"@,
            },
    {
        let salt = random_bytes(SALT_LEN);
        self.change_password_with(username, new_password, &salt)
    }

    /// The user whom a client certificate names.
    pub fn authenticate_by_cert_cn(&self, common_name: &str) -> (r: Option<User>)
        requires
            self.wf(),
        ensures
            match r {
                Some(user) => self@.contains_key(common_name@) && user@ == self@[common_name@],
                None => !self@.contains_key(common_name@),
            },
    {
        match self.users.get(common_name) {
            Some(user) => Some(user.copy()),
            None => None,
        }
    }

    /// The user whom a client certificate names, or else one whose name the certificate's name
    /// starts with.
    pub fn authenticate_cert_with_prefix(&self, common_name: &str) -> (r: Option<User>)
        requires
            self.wf(),
        ensures
            self@.contains_key(common_name@) ==> r is Some && r->0@ == self@[common_name@],
            match r {
                Some(user) => self@.contains_key(user@.username) && user@ == self@[user@.username]
                    && starts_with(common_name@, user@.username),
                None => forall|k: Seq<char>| #[trigger]
                    self@.contains_key(k) ==> !starts_with(common_name@, k),
            },
    {
        match self.authenticate_by_cert_cn(common_name) {
            Some(user) => {
                assert(self@.contains_key(common_name@));
                assert(common_name@.subrange(0, common_name@.len() as int) =~= common_name@);
                return Some(user);
            },
            None => {},
        }
        let mut i: usize = 0;
        while i < self.users.keys.len()
            invariant
                i <= self.users.keys@.len(),
                self.wf(),
                !self@.contains_key(common_name@),
                forall|k: int|
                    0 <= k < i ==> !starts_with(common_name@, #[trigger] self.users.keys@[k]@),
            decreases self.users.keys@.len() - i,
        {
            proof {
                self.users.lemma_place(i as int);
                assert(self@.contains_key(self.users.keys@[i as int]@));
            }
            if has_prefix(common_name, self.users.vals[i].username.as_str()) {
                return Some(self.users.vals[i].copy());
            }
            i = i + 1;
        }
        proof {
            assert forall|k: Seq<char>| #[trigger] self@.contains_key(k) implies !starts_with(
                common_name@,
                k,
            ) by {
                assert(self.users@.contains_key(k));
                let p = choose|p: int| self.users.at(k, p);
                assert(self.users.keys@[p]@ == k);
            }
        }
        None
    }
}

fn not_found(username: &str) -> (r: String)
    ensures
        r@ == "User '"@ + username@ + "' not found"@,
{
    let mut msg = "User '".to_owned();
    msg.append(username);
    msg.append("' not found");
    msg
}

/// A role with its name and what it is for.
#[derive(Debug, Clone)]
pub struct RoleDescription {
    pub role: Role,
    pub name: String,
    pub description: String,
}

/// The name and the description of a role.
pub open spec fn role_words(role: Role) -> (Seq<char>, Seq<char>) {
    match role {
        Role::Admin => ("Admin"@, "Full access to everything"@),
        Role::BucketFullAccess => ("Bucket Full Access"@, "Full access to a specific bucket"@),
        Role::DataReader => ("Data Reader"@, "Read-only access to bucket data"@),
        Role::DataWriter => ("Data Writer"@, "Write access to bucket data"@),
        Role::DataReadWrite => ("Data Read/Write"@, "Read and write access to bucket data"@),
        Role::QuerySelect => ("Query Select"@, "Execute SELECT queries"@),
        Role::QueryManage => ("Query Manage"@, "Manage queries and indexes"@),
        Role::FtsSearcher => ("FTS Searcher"@, "Execute FTS searches"@),
        Role::FtsAdmin => ("FTS Admin"@, "Manage FTS indexes"@),
        Role::ClusterAdmin => ("Cluster Admin"@, "Cluster administration"@),
        Role::ClusterMonitor => ("Cluster Monitor"@, "Read-only cluster monitoring"@),
        Role::XdcrAdmin => ("XDCR Admin"@, "XDCR replication management"@),
        Role::BackupAdmin => ("Backup Admin"@, "Backup/restore management"@),
        Role::ReadOnlyAdmin => ("Read-Only Admin"@, "Read-only access to everything"@),
    }
}

/// The roles in the order in which they are listed.
pub open spec fn role_order() -> Seq<Role> {
    seq![
        Role::Admin,
        Role::BucketFullAccess,
        Role::DataReader,
        Role::DataWriter,
        Role::DataReadWrite,
        Role::QuerySelect,
        Role::QueryManage,
        Role::FtsSearcher,
        Role::FtsAdmin,
        Role::ClusterAdmin,
        Role::ClusterMonitor,
        Role::XdcrAdmin,
        Role::BackupAdmin,
        Role::ReadOnlyAdmin,
    ]
}

fn describe(role: Role) -> (r: RoleDescription)
    ensures
        r.role == role,
        (r.name@, r.description@) == role_words(role),
{
    let words: (&str, &str) = match role {
        Role::Admin => ("Admin", "Full access to everything"),
        Role::BucketFullAccess => ("Bucket Full Access", "Full access to a specific bucket"),
        Role::DataReader => ("Data Reader", "Read-only access to bucket data"),
        Role::DataWriter => ("Data Writer", "Write access to bucket data"),
        Role::DataReadWrite => ("Data Read/Write", "Read and write access to bucket data"),
        Role::QuerySelect => ("Query Select", "Execute SELECT queries"),
        Role::QueryManage => ("Query Manage", "Manage queries and indexes"),
        Role::FtsSearcher => ("FTS Searcher", "Execute FTS searches"),
        Role::FtsAdmin => ("FTS Admin", "Manage FTS indexes"),
        Role::ClusterAdmin => ("Cluster Admin", "Cluster administration"),
        Role::ClusterMonitor => ("Cluster Monitor", "Read-only cluster monitoring"),
        Role::XdcrAdmin => ("XDCR Admin", "XDCR replication management"),
        Role::BackupAdmin => ("Backup Admin", "Backup/restore management"),
        Role::ReadOnlyAdmin => ("Read-Only Admin", "Read-only access to everything"),
    };
    RoleDescription { role, name: words.0.to_owned(), description: words.1.to_owned() }
}

/// All roles with their names and descriptions.
pub fn list_available_roles() -> (r: Vec<RoleDescription>)
    ensures
        r@.len() == role_order().len(),
        forall|i: int|
            0 <= i < r@.len() ==> (#[trigger] r@[i]).role == role_order()[i] && (
            r@[i].name@, r@[i].description@) == role_words(role_order()[i]),
{
    let roles: Vec<Role> = vec![
        Role::Admin,
        Role::BucketFullAccess,
        Role::DataReader,
        Role::DataWriter,
        Role::DataReadWrite,
        Role::QuerySelect,
        Role::QueryManage,
        Role::FtsSearcher,
        Role::FtsAdmin,
        Role::ClusterAdmin,
        Role::ClusterMonitor,
        Role::XdcrAdmin,
        Role::BackupAdmin,
        Role::ReadOnlyAdmin,
    ];
    assert(roles@ =~= role_order());
    let mut out: Vec<RoleDescription> = Vec::new();
    let mut i: usize = 0;
    while i < roles.len()
        invariant
            i <= roles@.len(),
            roles@ == role_order(),
            out@.len() == i,
            forall|k: int|
                0 <= k < i ==> (#[trigger] out@[k]).role == role_order()[k] && (
                out@[k].name@, out@[k].description@) == role_words(role_order()[k]),
        decreases roles@.len() - i,
    {
        out.push(describe(roles[i]));
        i = i + 1;
    }
    out
}

// ---- Laws ----

/// An administrator may do everything.
pub proof fn law_admin_may_do_everything(user: UserView, i: int, p: PermissionView)
    requires
        0 <= i < user.roles.len(),
        user.roles[i].role == Role::Admin,
    ensures
        may(user, p),
{
    assert(grants(user.roles[i].role, user.roles[i].bucket, p));
}

/// A user without roles may do nothing.
pub proof fn law_no_roles_no_permissions(user: UserView, p: PermissionView)
    requires
        user.roles.len() == 0,
    ensures
        !may(user, p),
{
}

/// A further role never takes a permission away.
pub proof fn law_roles_only_add(user: UserView, role: AssignmentView, p: PermissionView)
    requires
        may(user, p),
    ensures
        may((UserView { roles: user.roles.push(role), ..user }), p),
{
    let more = UserView { roles: user.roles.push(role), ..user };
    let i = choose|i: int|
        0 <= i < user.roles.len() && grants((#[trigger] user.roles[i]).role, user.roles[i].bucket, p);
    assert(grants(more.roles[i].role, more.roles[i].bucket, p));
}

/// A data role for one bucket gives no access to another.
pub proof fn law_bucket_roles_stay_in_their_bucket(role: Role, bucket: Seq<char>, other: Seq<char>)
    requires
        role == Role::DataReader || role == Role::DataWriter || role == Role::DataReadWrite || role
            == Role::BucketFullAccess,
        bucket != other,
    ensures
        !grants(role, Some(bucket), PermissionView::BucketRead(other)),
        !grants(role, Some(bucket), PermissionView::BucketWrite(other)),
        !grants(role, Some(bucket), PermissionView::BucketManage(other)),
        !grants(role, Some(bucket), PermissionView::BucketFlush(other)),
{
}

/// A read-only role never allows a change.
pub proof fn law_read_only_roles_change_nothing(role: Role, scope: Option<Seq<char>>, bucket: Seq<char>)
    requires
        role == Role::DataReader || role == Role::ReadOnlyAdmin || role == Role::ClusterMonitor,
    ensures
        !grants(role, scope, PermissionView::BucketWrite(bucket)),
        !grants(role, scope, PermissionView::BucketManage(bucket)),
        !grants(role, scope, PermissionView::BucketFlush(bucket)),
        !grants(role, scope, PermissionView::ClusterManage),
        !grants(role, scope, PermissionView::UserManage),
        !grants(role, scope, PermissionView::XdcrManage),
        !grants(role, scope, PermissionView::BackupManage),
        !grants(role, scope, PermissionView::IndexManage),
        !grants(role, scope, PermissionView::FtsManage),
{
}

/// Every role is listed, under a name of its own place.
pub proof fn law_every_role_is_listed(role: Role)
    ensures
        role_order().contains(role),
        role_order().no_duplicates(),
{
    let r = role_order();
    assert(r[0] == Role::Admin && r[1] == Role::BucketFullAccess && r[2] == Role::DataReader && r[3]
        == Role::DataWriter && r[4] == Role::DataReadWrite && r[5] == Role::QuerySelect && r[6]
        == Role::QueryManage && r[7] == Role::FtsSearcher && r[8] == Role::FtsAdmin && r[9]
        == Role::ClusterAdmin && r[10] == Role::ClusterMonitor && r[11] == Role::XdcrAdmin && r[12]
        == Role::BackupAdmin && r[13] == Role::ReadOnlyAdmin);
}

/// Which roles allow which deed. What is done to a bucket's data or to the bucket takes a role that
/// is meant for that bucket or for all; the rest goes by the role alone, except that full access to
/// one bucket also allows queries and indexes.
pub proof fn law_deeds_have_their_roles(role: Role, scope: Option<Seq<char>>, bucket: Seq<char>)
    ensures
        grants(role, scope, PermissionView::BucketRead(bucket)) == (role == Role::Admin || role
            == Role::ReadOnlyAdmin || ((role == Role::DataReader || role == Role::DataReadWrite || role
            == Role::BucketFullAccess) && (scope is None || scope->0 == bucket))),
        grants(role, scope, PermissionView::BucketWrite(bucket)) == (role == Role::Admin || ((role
            == Role::DataWriter || role == Role::DataReadWrite || role == Role::BucketFullAccess) && (
        scope is None || scope->0 == bucket))),
        grants(role, scope, PermissionView::BucketManage(bucket)) == (role == Role::Admin || (role
            == Role::BucketFullAccess && (scope is None || scope->0 == bucket))),
        grants(role, scope, PermissionView::BucketFlush(bucket)) == (role == Role::Admin || (role
            == Role::BucketFullAccess && (scope is None || scope->0 == bucket))),
        grants(role, scope, PermissionView::QueryExecute) == (role == Role::Admin || role
            == Role::QuerySelect || role == Role::QueryManage || (role == Role::BucketFullAccess
            && scope is Some)),
        grants(role, scope, PermissionView::QueryManage) == (role == Role::Admin || role
            == Role::QueryManage || (role == Role::BucketFullAccess && scope is Some)),
        grants(role, scope, PermissionView::IndexManage) == (role == Role::Admin || role
            == Role::QueryManage || (role == Role::BucketFullAccess && scope is Some)),
        grants(role, scope, PermissionView::FtsRead) == (role == Role::Admin || role
            == Role::ReadOnlyAdmin || role == Role::FtsSearcher || role == Role::FtsAdmin),
        grants(role, scope, PermissionView::FtsManage) == (role == Role::Admin || role
            == Role::FtsAdmin),
        grants(role, scope, PermissionView::ClusterRead) == (role == Role::Admin || role
            == Role::ClusterAdmin || role == Role::ClusterMonitor || role == Role::ReadOnlyAdmin || role
            == Role::XdcrAdmin || role == Role::BackupAdmin),
        grants(role, scope, PermissionView::ClusterManage) == (role == Role::Admin || role
            == Role::ClusterAdmin),
        grants(role, scope, PermissionView::UserManage) == (role == Role::Admin || role
            == Role::ClusterAdmin),
        grants(role, scope, PermissionView::AuditRead) == (role == Role::Admin || role
            == Role::ClusterAdmin || role == Role::ClusterMonitor || role == Role::ReadOnlyAdmin),
        grants(role, scope, PermissionView::XdcrManage) == (role == Role::Admin || role
            == Role::XdcrAdmin),
        grants(role, scope, PermissionView::BackupManage) == (role == Role::Admin || role
            == Role::BackupAdmin),
{
}

/// One role among a user's is enough, and without one that allows the deed there is no permission.
pub proof fn law_one_role_is_enough(
    name: Seq<char>,
    hash: Seq<char>,
    display: Seq<char>,
    a: Seq<AssignmentView>,
    role: AssignmentView,
    b: Seq<AssignmentView>,
    builtin: bool,
    created_at: i128,
    p: PermissionView,
)
    requires
        forall|i: int| 0 <= i < a.len() ==> !grants((#[trigger] a[i]).role, a[i].bucket, p),
        forall|i: int| 0 <= i < b.len() ==> !grants((#[trigger] b[i]).role, b[i].bucket, p),
    ensures
        may(
            (UserView {
                username: name,
                password_hash: hash,
                display_name: display,
                roles: a + seq![role] + b,
                builtin,
                created_at,
            }),
            p,
        ) == grants(role.role, role.bucket, p),
{
    let user = UserView {
        username: name,
        password_hash: hash,
        display_name: display,
        roles: a + seq![role] + b,
        builtin,
        created_at,
    };
    let n = a.len() as int;
    assert(user.roles[n] == role);
    assert forall|i: int| 0 <= i < user.roles.len() && i != n implies !grants(
        (#[trigger] user.roles[i]).role,
        user.roles[i].bucket,
        p,
    ) by {
        if i < n {
            assert(user.roles[i] == a[i]);
        } else {
            assert(user.roles[i] == b[i - n - 1]);
        }
    }
}

/// A stored text with less than two dollar signs is the password itself.
pub proof fn law_plain_passwords_match_themselves(password: Seq<char>, a: Seq<char>, b: Seq<char>)
    requires
        !a.contains('$'),
        !b.contains('$'),
    ensures
        matches_stored(password, a) == (password == a),
        matches_stored(password, a + "$"@ + b) == (password == a + "$"@ + b),
{
    reveal_strlit("$");
    lemma_no_char(a, '$', 0);
    let s = a + "$"@ + b;
    let n = a.len() as int;
    assert forall|k: int| 0 <= k < n implies s[k] != '$' by {
        assert(s[k] == a[k]);
    }
    lemma_find_char(s, '$', 0, n);
    assert forall|k: int| n + 1 <= k < s.len() implies s[k] != '$' by {
        assert(s[k] == b[k - n - 1]);
    }
    lemma_no_char_after(s, '$', n + 1);
}

proof fn lemma_no_char(s: Seq<char>, c: char, i: int)
    requires
        0 <= i,
        !s.contains(c),
    ensures
        find_char(s, c, i) is None,
    decreases s.len() - i,
{
    if i < s.len() {
        assert(s.contains(s[i]));
        lemma_no_char(s, c, i + 1);
    }
}

proof fn lemma_no_char_after(s: Seq<char>, c: char, i: int)
    requires
        0 <= i,
        forall|k: int| i <= k < s.len() ==> s[k] != c,
    ensures
        find_char(s, c, i) is None,
    decreases s.len() - i,
{
    if i < s.len() {
        lemma_no_char_after(s, c, i + 1);
    }
}

/// A stored text of rounds, salt and hash belongs to the passwords that have that hash after that
/// many rounds with that salt, and to no others.
pub proof fn law_hashed_passwords_match_their_hash(
    password: Seq<char>,
    rounds: u32,
    salt: Seq<u8>,
    hash: Seq<u8>,
)
    ensures
        matches_stored(
            password,
            dec(rounds as nat) + "$"@ + hex_of(salt) + "$"@ + hex_of(hash),
        ) == (pbkdf2_sha256_of(encode_utf8(password), salt, rounds, hash.len()) == hash),
{
    reveal_strlit("$");
    let d = dec(rounds as nat);
    let s = d + "$"@ + hex_of(salt) + "$"@ + hex_of(hash);
    let a = d.len() as int;
    let b = a + 1 + hex_of(salt).len();
    lemma_dec_chars(rounds as nat);
    lemma_hex_chars(salt);
    lemma_hex_chars(hash);
    assert forall|k: int| 0 <= k < a implies s[k] != '$' by {
        assert(s[k] == d[k]);
    }
    lemma_find_char(s, '$', 0, a);
    assert forall|k: int| a + 1 <= k < b implies s[k] != '$' by {
        assert(s[k] == hex_of(salt)[k - a - 1]);
    }
    lemma_find_char(s, '$', a + 1, b);
    assert(s.subrange(0, a) =~= d);
    assert(s.subrange(a + 1, b) =~= hex_of(salt));
    assert(s.subrange(b + 1, s.len() as int) =~= hex_of(hash));
    law_parse_undoes_decimal(rounds);
    law_hex_round_trip(salt);
    law_hex_round_trip(hash);
}

/// A new password is hashed with ten thousand rounds to thirty-two bytes.
pub proof fn law_new_passwords_are_hashed(password: Seq<char>, salt: Seq<u8>)
    ensures
        hash_text(salt, hash_of(password, salt)) == dec(10_000) + "$"@ + hex_of(salt) + "$"@
            + hex_of(pbkdf2_sha256_of(encode_utf8(password), salt, 10_000, 32)),
{
}

/// There is one user from the start: a built-in administrator of everything.
pub proof fn law_administrator_is_built_in(hash: Seq<char>, now: i128, p: PermissionView)
    ensures
        ({
            let user = administrator(hash, now);
            &&& user.username == "Administrator"@
            &&& user.password_hash == hash
            &&& user.display_name == "Built-in Administrator"@
            &&& user.builtin
            &&& user.created_at == now
            &&& user.roles.len() == 1
            &&& user.roles[0].role == Role::Admin
            &&& user.roles[0].bucket is None
            &&& may(user, p)
        }),
{
    law_admin_may_do_everything(administrator(hash, now), 0, p);
}

/// What is told about a user are names, roles and how the user came about, as they are.
pub proof fn law_users_are_told_as_they_are(info: UserInfo, user: UserView, i: int)
    requires
        info.describes(user),
    ensures
        info.username@ == user.username,
        info.display_name@ == user.display_name,
        info.builtin == user.builtin,
        info.created_at == user.created_at,
        info.roles@.len() == user.roles.len(),
        0 <= i < user.roles.len() ==> info.roles@[i].role == user.roles[i].role && opt_text(
            info.roles@[i].bucket,
        ) == user.roles[i].bucket,
{
    assert(role_views(info.roles@).len() == info.roles@.len());
    if 0 <= i < user.roles.len() {
        assert(role_views(info.roles@)[i] == info.roles@[i]@);
    }
}

/// Each role has its own name and a description.
pub proof fn law_roles_have_their_words(role: Role)
    ensures
        role == Role::Admin ==> role_words(role) == ("Admin"@, "Full access to everything"@),
        role == Role::BucketFullAccess ==> role_words(role) == (
            "Bucket Full Access"@,
            "Full access to a specific bucket"@,
        ),
        role == Role::DataReader ==> role_words(role) == (
            "Data Reader"@,
            "Read-only access to bucket data"@,
        ),
        role == Role::DataWriter ==> role_words(role) == (
            "Data Writer"@,
            "Write access to bucket data"@,
        ),
        role == Role::DataReadWrite ==> role_words(role) == (
            "Data Read/Write"@,
            "Read and write access to bucket data"@,
        ),
        role == Role::QuerySelect ==> role_words(role) == ("Query Select"@, "Execute SELECT queries"@),
        role == Role::QueryManage ==> role_words(role) == (
            "Query Manage"@,
            "Manage queries and indexes"@,
        ),
        role == Role::FtsSearcher ==> role_words(role) == ("FTS Searcher"@, "Execute FTS searches"@),
        role == Role::FtsAdmin ==> role_words(role) == ("FTS Admin"@, "Manage FTS indexes"@),
        role == Role::ClusterAdmin ==> role_words(role) == (
            "Cluster Admin"@,
            "Cluster administration"@,
        ),
        role == Role::ClusterMonitor ==> role_words(role) == (
            "Cluster Monitor"@,
            "Read-only cluster monitoring"@,
        ),
        role == Role::XdcrAdmin ==> role_words(role) == (
            "XDCR Admin"@,
            "XDCR replication management"@,
        ),
        role == Role::BackupAdmin ==> role_words(role) == (
            "Backup Admin"@,
            "Backup/restore management"@,
        ),
        role == Role::ReadOnlyAdmin ==> role_words(role) == (
            "Read-Only Admin"@,
            "Read-only access to everything"@,
        ),
{
}

} // verus!
