//! Errors of the database, with their messages and HTTP status codes.

use crate::text::{dec, push_dec};
use vstd::prelude::*;
use vstd::string::*;

verus! {

/// An error of the database.
#[derive(Debug)]
pub enum NosqlError {
    BucketNotFound(String),
    BucketAlreadyExists(String),
    ScopeNotFound(String),
    ScopeAlreadyExists(String),
    CollectionNotFound(String),
    CollectionAlreadyExists(String),
    DocumentNotFound(String),
    CasMismatch { expected: u64, actual: u64 },
    DocumentExpired,
    ReplicationNotFound(String),
    ReplicationAlreadyExists(String),
    RemoteClusterNotFound(String),
    RemoteClusterAlreadyExists(String),
    NodeNotFound(String),
    NodeAlreadyExists(String),
    QueryError(String),
    PersistenceError(String),
    Internal(String),
    InvalidRequest(String),
    XdcrConnectionError(String),
    VBucketNotFound(u16),
    DocumentLocked(String),
    SubdocPathNotFound(String),
    SubdocPathMismatch(String),
    SubdocPathExists(String),
    /// Bucket, megabytes used, megabytes allowed.
    MemoryQuotaExceeded(String, u64, u64),
}

/// The result of an operation on the database.
pub type Result<T> = std::result::Result<T, NosqlError>;

/// The word for a kind of thing, a quoted name and what is the matter with it.
pub open spec fn named(kind: Seq<char>, name: Seq<char>, matter: Seq<char>) -> Seq<char> {
    kind + " '"@ + name + "' "@ + matter
}

fn named_text(kind: &str, name: &str, matter: &str) -> (r: String)
    ensures
        r@ == named(kind@, name@, matter@),
{
    let mut out = kind.to_owned();
    out.append(" '");
    out.append(name);
    out.append("' ");
    out.append(matter);
    out
}

fn after(prefix: &str, text: &str) -> (r: String)
    ensures
        r@ == prefix@ + text@,
{
    let mut out = prefix.to_owned();
    out.append(text);
    out
}

impl NosqlError {
    /// The message of an error.
    pub open spec fn message(self) -> Seq<char> {
        match self {
            NosqlError::BucketNotFound(n) => named("Bucket"@, n@, "not found"@),
            NosqlError::BucketAlreadyExists(n) => named("Bucket"@, n@, "already exists"@),
            NosqlError::ScopeNotFound(n) => named("Scope"@, n@, "not found"@),
            NosqlError::ScopeAlreadyExists(n) => named("Scope"@, n@, "already exists"@),
            NosqlError::CollectionNotFound(n) => named("Collection"@, n@, "not found"@),
            NosqlError::CollectionAlreadyExists(n) => named("Collection"@, n@, "already exists"@),
            NosqlError::DocumentNotFound(n) => named("Document"@, n@, "not found"@),
            NosqlError::CasMismatch { expected, actual } => "CAS mismatch: expected "@ + dec(
                expected as nat,
            ) + ", got "@ + dec(actual as nat),
            NosqlError::DocumentExpired => "Document has expired"@,
            NosqlError::ReplicationNotFound(n) => named("XDCR replication"@, n@, "not found"@),
            NosqlError::ReplicationAlreadyExists(n) => named(
                "XDCR replication"@,
                n@,
                "already exists"@,
            ),
            NosqlError::RemoteClusterNotFound(n) => named("Remote cluster"@, n@, "not found"@),
            NosqlError::RemoteClusterAlreadyExists(n) => named(
                "Remote cluster"@,
                n@,
                "already exists"@,
            ),
            NosqlError::NodeNotFound(n) => named("Node"@, n@, "not found"@),
            NosqlError::NodeAlreadyExists(n) => named("Node"@, n@, "already exists"@),
            NosqlError::QueryError(t) => "Query error: "@ + t@,
            NosqlError::PersistenceError(t) => "Persistence error: "@ + t@,
            NosqlError::Internal(t) => "Internal error: "@ + t@,
            NosqlError::InvalidRequest(t) => "Invalid request: "@ + t@,
            NosqlError::XdcrConnectionError(t) => "XDCR connection error: "@ + t@,
            NosqlError::VBucketNotFound(id) => "VBucket "@ + dec(id as nat) + " not found"@,
            NosqlError::DocumentLocked(n) => named("Document"@, n@, "is locked"@),
            NosqlError::SubdocPathNotFound(n) => named("Sub-document path"@, n@, "not found"@),
            NosqlError::SubdocPathMismatch(n) => named("Sub-document path"@, n@, "type mismatch"@),
            NosqlError::SubdocPathExists(n) => named("Sub-document path"@, n@, "already exists"@),
            NosqlError::MemoryQuotaExceeded(n, used, quota) => "Memory quota exceeded for bucket '"@
                + n@ + "': using "@ + dec(used as nat) + " MB of "@ + dec(quota as nat) + " MB"@,
        }
    }

    /// The HTTP status code of an error.
    pub open spec fn status(self) -> u16 {
        match self {
            NosqlError::BucketNotFound(_)
            | NosqlError::ScopeNotFound(_)
            | NosqlError::CollectionNotFound(_)
            | NosqlError::DocumentNotFound(_)
            | NosqlError::DocumentExpired
            | NosqlError::ReplicationNotFound(_)
            | NosqlError::RemoteClusterNotFound(_)
            | NosqlError::NodeNotFound(_)
            | NosqlError::SubdocPathNotFound(_) => 404,
            NosqlError::BucketAlreadyExists(_)
            | NosqlError::ScopeAlreadyExists(_)
            | NosqlError::CollectionAlreadyExists(_)
            | NosqlError::CasMismatch { .. }
            | NosqlError::ReplicationAlreadyExists(_)
            | NosqlError::RemoteClusterAlreadyExists(_)
            | NosqlError::NodeAlreadyExists(_)
            | NosqlError::DocumentLocked(_)
            | NosqlError::SubdocPathExists(_) => 409,
            NosqlError::QueryError(_)
            | NosqlError::InvalidRequest(_)
            | NosqlError::SubdocPathMismatch(_) => 400,
            NosqlError::PersistenceError(_)
            | NosqlError::Internal(_)
            | NosqlError::VBucketNotFound(_) => 500,
            NosqlError::XdcrConnectionError(_) => 503,
            NosqlError::MemoryQuotaExceeded(_, _, _) => 507,
        }
    }

    /// The message of the error.
    pub fn to_text(&self) -> (r: String)
        ensures
            r@ == self.message(),
    {
        match self {
            NosqlError::BucketNotFound(n) => named_text("Bucket", n.as_str(), "not found"),
            NosqlError::BucketAlreadyExists(n) => named_text("Bucket", n.as_str(), "already exists"),
            NosqlError::ScopeNotFound(n) => named_text("Scope", n.as_str(), "not found"),
            NosqlError::ScopeAlreadyExists(n) => named_text("Scope", n.as_str(), "already exists"),
            NosqlError::CollectionNotFound(n) => named_text("Collection", n.as_str(), "not found"),
            NosqlError::CollectionAlreadyExists(n) => named_text(
                "Collection",
                n.as_str(),
                "already exists",
            ),
            NosqlError::DocumentNotFound(n) => named_text("Document", n.as_str(), "not found"),
            NosqlError::CasMismatch { expected, actual } => {
                let mut out = "CAS mismatch: expected ".to_owned();
                push_dec(&mut out, *expected);
                out.append(", got ");
                push_dec(&mut out, *actual);
                out
            },
            NosqlError::DocumentExpired => "Document has expired".to_owned(),
            NosqlError::ReplicationNotFound(n) => named_text(
                "XDCR replication",
                n.as_str(),
                "not found",
            ),
            NosqlError::ReplicationAlreadyExists(n) => named_text(
                "XDCR replication",
                n.as_str(),
                "already exists",
            ),
            NosqlError::RemoteClusterNotFound(n) => named_text(
                "Remote cluster",
                n.as_str(),
                "not found",
            ),
            NosqlError::RemoteClusterAlreadyExists(n) => named_text(
                "Remote cluster",
                n.as_str(),
                "already exists",
            ),
            NosqlError::NodeNotFound(n) => named_text("Node", n.as_str(), "not found"),
            NosqlError::NodeAlreadyExists(n) => named_text("Node", n.as_str(), "already exists"),
            NosqlError::QueryError(t) => after("Query error: ", t.as_str()),
            NosqlError::PersistenceError(t) => after("Persistence error: ", t.as_str()),
            NosqlError::Internal(t) => after("Internal error: ", t.as_str()),
            NosqlError::InvalidRequest(t) => after("Invalid request: ", t.as_str()),
            NosqlError::XdcrConnectionError(t) => after("XDCR connection error: ", t.as_str()),
            NosqlError::VBucketNotFound(id) => {
                let mut out = "VBucket ".to_owned();
                push_dec(&mut out, *id as u64);
                out.append(" not found");
                out
            },
            NosqlError::DocumentLocked(n) => named_text("Document", n.as_str(), "is locked"),
            NosqlError::SubdocPathNotFound(n) => named_text(
                "Sub-document path",
                n.as_str(),
                "not found",
            ),
            NosqlError::SubdocPathMismatch(n) => named_text(
                "Sub-document path",
                n.as_str(),
                "type mismatch",
            ),
            NosqlError::SubdocPathExists(n) => named_text(
                "Sub-document path",
                n.as_str(),
                "already exists",
            ),
            NosqlError::MemoryQuotaExceeded(n, used, quota) => {
                let mut out = "Memory quota exceeded for bucket '".to_owned();
                out.append(n.as_str());
                out.append("': using ");
                push_dec(&mut out, *used);
                out.append(" MB of ");
                push_dec(&mut out, *quota);
                out.append(" MB");
                out
            },
        }
    }

    /// The HTTP status code that answers a request which failed with this error.
    pub fn status_code(&self) -> (r: u16)
        ensures
            r == self.status(),
    {
        match self {
            NosqlError::BucketNotFound(_)
            | NosqlError::ScopeNotFound(_)
            | NosqlError::CollectionNotFound(_)
            | NosqlError::DocumentNotFound(_)
            | NosqlError::DocumentExpired
            | NosqlError::ReplicationNotFound(_)
            | NosqlError::RemoteClusterNotFound(_)
            | NosqlError::NodeNotFound(_)
            | NosqlError::SubdocPathNotFound(_) => 404,
            NosqlError::BucketAlreadyExists(_)
            | NosqlError::ScopeAlreadyExists(_)
            | NosqlError::CollectionAlreadyExists(_)
            | NosqlError::CasMismatch { .. }
            | NosqlError::ReplicationAlreadyExists(_)
            | NosqlError::RemoteClusterAlreadyExists(_)
            | NosqlError::NodeAlreadyExists(_)
            | NosqlError::DocumentLocked(_)
            | NosqlError::SubdocPathExists(_) => 409,
            NosqlError::QueryError(_)
            | NosqlError::InvalidRequest(_)
            | NosqlError::SubdocPathMismatch(_) => 400,
            NosqlError::PersistenceError(_)
            | NosqlError::Internal(_)
            | NosqlError::VBucketNotFound(_) => 500,
            NosqlError::XdcrConnectionError(_) => 503,
            NosqlError::MemoryQuotaExceeded(_, _, _) => 507,
        }
    }
}

// ---- Laws ----

/// A message says what is the matter with the thing of that name.
pub proof fn law_messages_name_the_thing(n: String)
    ensures
        NosqlError::BucketNotFound(n).message() == "Bucket '"@ + n@ + "' not found"@,
        NosqlError::BucketAlreadyExists(n).message() == "Bucket '"@ + n@ + "' already exists"@,
        NosqlError::ScopeNotFound(n).message() == "Scope '"@ + n@ + "' not found"@,
        NosqlError::ScopeAlreadyExists(n).message() == "Scope '"@ + n@ + "' already exists"@,
        NosqlError::CollectionNotFound(n).message() == "Collection '"@ + n@ + "' not found"@,
        NosqlError::CollectionAlreadyExists(n).message() == "Collection '"@ + n@ + "' already exists"@,
        NosqlError::DocumentNotFound(n).message() == "Document '"@ + n@ + "' not found"@,
        NosqlError::ReplicationNotFound(n).message() == "XDCR replication '"@ + n@ + "' not found"@,
        NosqlError::ReplicationAlreadyExists(n).message() == "XDCR replication '"@ + n@ + "' already exists"@,
        NosqlError::RemoteClusterNotFound(n).message() == "Remote cluster '"@ + n@ + "' not found"@,
        NosqlError::RemoteClusterAlreadyExists(n).message() == "Remote cluster '"@ + n@ + "' already exists"@,
        NosqlError::NodeNotFound(n).message() == "Node '"@ + n@ + "' not found"@,
        NosqlError::NodeAlreadyExists(n).message() == "Node '"@ + n@ + "' already exists"@,
        NosqlError::DocumentLocked(n).message() == "Document '"@ + n@ + "' is locked"@,
        NosqlError::SubdocPathNotFound(n).message() == "Sub-document path '"@ + n@ + "' not found"@,
        NosqlError::SubdocPathMismatch(n).message() == "Sub-document path '"@ + n@ + "' type mismatch"@,
        NosqlError::SubdocPathExists(n).message() == "Sub-document path '"@ + n@ + "' already exists"@,
        NosqlError::QueryError(n).message() == "Query error: "@ + n@,
        NosqlError::PersistenceError(n).message() == "Persistence error: "@ + n@,
        NosqlError::Internal(n).message() == "Internal error: "@ + n@,
        NosqlError::InvalidRequest(n).message() == "Invalid request: "@ + n@,
        NosqlError::XdcrConnectionError(n).message() == "XDCR connection error: "@ + n@,
{
    reveal_strlit(" '");
    reveal_strlit("' ");
    reveal_strlit("' already exists");
    reveal_strlit("' is locked");
    reveal_strlit("' not found");
    reveal_strlit("' type mismatch");
    reveal_strlit("Bucket");
    reveal_strlit("Bucket '");
    reveal_strlit("Collection");
    reveal_strlit("Collection '");
    reveal_strlit("Document");
    reveal_strlit("Document '");
    reveal_strlit("Node");
    reveal_strlit("Node '");
    reveal_strlit("Remote cluster");
    reveal_strlit("Remote cluster '");
    reveal_strlit("Scope");
    reveal_strlit("Scope '");
    reveal_strlit("Sub-document path");
    reveal_strlit("Sub-document path '");
    reveal_strlit("XDCR replication");
    reveal_strlit("XDCR replication '");
    reveal_strlit("already exists");
    reveal_strlit("is locked");
    reveal_strlit("not found");
    reveal_strlit("type mismatch");
    assert("Bucket"@ + " '"@ =~= "Bucket '"@);
    assert("' "@ + "not found"@ =~= "' not found"@);
    assert(NosqlError::BucketNotFound(n).message() =~= ("Bucket"@ + " '"@) + n@ + ("' "@ + "not found"@));
    assert("' "@ + "already exists"@ =~= "' already exists"@);
    assert(NosqlError::BucketAlreadyExists(n).message() =~= ("Bucket"@ + " '"@) + n@ + ("' "@ + "already exists"@));
    assert("Scope"@ + " '"@ =~= "Scope '"@);
    assert(NosqlError::ScopeNotFound(n).message() =~= ("Scope"@ + " '"@) + n@ + ("' "@ + "not found"@));
    assert(NosqlError::ScopeAlreadyExists(n).message() =~= ("Scope"@ + " '"@) + n@ + ("' "@ + "already exists"@));
    assert("Collection"@ + " '"@ =~= "Collection '"@);
    assert(NosqlError::CollectionNotFound(n).message() =~= ("Collection"@ + " '"@) + n@ + ("' "@ + "not found"@));
    assert(NosqlError::CollectionAlreadyExists(n).message() =~= ("Collection"@ + " '"@) + n@ + ("' "@ + "already exists"@));
    assert("Document"@ + " '"@ =~= "Document '"@);
    assert(NosqlError::DocumentNotFound(n).message() =~= ("Document"@ + " '"@) + n@ + ("' "@ + "not found"@));
    assert("XDCR replication"@ + " '"@ =~= "XDCR replication '"@);
    assert(NosqlError::ReplicationNotFound(n).message() =~= ("XDCR replication"@ + " '"@) + n@ + ("' "@ + "not found"@));
    assert(NosqlError::ReplicationAlreadyExists(n).message() =~= ("XDCR replication"@ + " '"@) + n@ + ("' "@ + "already exists"@));
    assert("Remote cluster"@ + " '"@ =~= "Remote cluster '"@);
    assert(NosqlError::RemoteClusterNotFound(n).message() =~= ("Remote cluster"@ + " '"@) + n@ + ("' "@ + "not found"@));
    assert(NosqlError::RemoteClusterAlreadyExists(n).message() =~= ("Remote cluster"@ + " '"@) + n@ + ("' "@ + "already exists"@));
    assert("Node"@ + " '"@ =~= "Node '"@);
    assert(NosqlError::NodeNotFound(n).message() =~= ("Node"@ + " '"@) + n@ + ("' "@ + "not found"@));
    assert(NosqlError::NodeAlreadyExists(n).message() =~= ("Node"@ + " '"@) + n@ + ("' "@ + "already exists"@));
    assert("' "@ + "is locked"@ =~= "' is locked"@);
    assert(NosqlError::DocumentLocked(n).message() =~= ("Document"@ + " '"@) + n@ + ("' "@ + "is locked"@));
    assert("Sub-document path"@ + " '"@ =~= "Sub-document path '"@);
    assert(NosqlError::SubdocPathNotFound(n).message() =~= ("Sub-document path"@ + " '"@) + n@ + ("' "@ + "not found"@));
    assert("' "@ + "type mismatch"@ =~= "' type mismatch"@);
    assert(NosqlError::SubdocPathMismatch(n).message() =~= ("Sub-document path"@ + " '"@) + n@ + ("' "@ + "type mismatch"@));
    assert(NosqlError::SubdocPathExists(n).message() =~= ("Sub-document path"@ + " '"@) + n@ + ("' "@ + "already exists"@));
}

/// What was not found is answered with 404, what is already there or changed meanwhile with 409,
/// what is wrong with the request with 400, what went wrong here with 500, a cluster that cannot be
/// reached with 503 and a full bucket with 507.
pub proof fn law_errors_have_their_status(e: NosqlError)
    ensures
        e.status() == 404 <==> e is BucketNotFound || e is ScopeNotFound || e is CollectionNotFound
            || e is DocumentNotFound || e is DocumentExpired || e is ReplicationNotFound
            || e is RemoteClusterNotFound || e is NodeNotFound || e is SubdocPathNotFound,
        e.status() == 409 <==> e is BucketAlreadyExists || e is ScopeAlreadyExists
            || e is CollectionAlreadyExists || e is CasMismatch || e is ReplicationAlreadyExists
            || e is RemoteClusterAlreadyExists || e is NodeAlreadyExists || e is DocumentLocked
            || e is SubdocPathExists,
        e.status() == 400 <==> e is QueryError || e is InvalidRequest || e is SubdocPathMismatch,
        e.status() == 500 <==> e is PersistenceError || e is Internal || e is VBucketNotFound,
        e.status() == 503 <==> e is XdcrConnectionError,
        e.status() == 507 <==> e is MemoryQuotaExceeded,
{
}

/// A message with numbers says which is which.
pub proof fn law_messages_tell_the_numbers(expected: u64, actual: u64, bucket: String, id: u16)
    ensures
        (NosqlError::CasMismatch { expected, actual }).message() == "CAS mismatch: expected "@ + dec(
            expected as nat,
        ) + ", got "@ + dec(actual as nat),
        NosqlError::MemoryQuotaExceeded(bucket, expected, actual).message()
            == "Memory quota exceeded for bucket '"@ + bucket@ + "': using "@ + dec(
            expected as nat,
        ) + " MB of "@ + dec(actual as nat) + " MB"@,
        NosqlError::VBucketNotFound(id).message() == "VBucket "@ + dec(id as nat) + " not found"@,
        NosqlError::DocumentExpired.message() == "Document has expired"@,
{
}

} // verus!
