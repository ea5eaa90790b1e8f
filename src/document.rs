use vstd::prelude::*;
use crate::json::JsonValue;

verus! {

/// A stored record: its caller-assigned id, its JSON payload, and the unix
/// seconds at which it was created and last updated.
#[derive(Debug)]
pub struct Document {
    pub id: String,
    pub data: JsonValue,
    pub created_at: u64,
    pub updated_at: u64,
}

} // verus!
