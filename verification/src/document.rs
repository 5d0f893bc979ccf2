//! Documents as the storage layer hands them out.

use vstd::prelude::*;

verus! {

/// A stored document. The value is its JSON text; times are nanoseconds since the Unix epoch.
#[derive(Debug, Clone)]
pub struct Document {
    pub key: String,
    pub value: String,
    pub cas: u64,
    pub rev_id: u64,
    pub seq_no: u64,
    pub expiry: Option<i128>,
    pub flags: u32,
    pub vbucket_id: u16,
    pub created_at: i128,
    pub updated_at: i128,
    pub deleted: bool,
}

} // verus!
