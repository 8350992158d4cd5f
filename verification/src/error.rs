//! Errors of store operations and the records of flow deletions.
use vstd::prelude::*;
use crate::json::Json;

verus! {

/// Errors returned by store write operations.
#[derive(Debug)]
pub enum StoreError {
    NotFound(String),
    ReadOnly,
    BadRequest(String),
    Internal(String),
}

/// Status lifecycle for deletion requests.
#[derive(Debug, Clone, Copy, PartialEq, Eq, Structural)]
pub enum DeletionStatus {
    Created,
    Started,
    Done,
    Error,
}

/// A deletion request for an asynchronous flow deletion.
pub struct DeletionRequest {
    pub id: String,
    pub flow_id: String,
    pub timerange_to_delete: String,
    pub timerange_remaining: Option<String>,
    pub delete_flow: bool,
    pub status: DeletionStatus,
    pub created: Option<String>,
    pub created_by: Option<String>,
    pub updated: Option<String>,
    pub expiry: Option<String>,
    pub error: Option<Json>,
}

/// Result of a flow deletion.
pub enum DeleteResult {
    /// Deleted at once.
    Deleted,
    /// There was nothing to delete.
    NotFound,
    /// Deletion goes on in the background; the request tracks it.
    Async(Box<DeletionRequest>),
}

pub open spec fn opt_str_view(o: Option<String>) -> Option<Seq<char>> {
    match o {
        Some(s) => Some(s@),
        None => None,
    }
}

/// A copy of an optional string.
pub fn copy_opt_str(o: &Option<String>) -> (r: Option<String>)
    ensures
        r == *o,
{
    match o {
        Some(s) => Some(s.clone()),
        None => None,
    }
}

/// A copy of an optional document.
pub fn copy_opt_json(o: &Option<Json>) -> (r: Option<Json>)
    ensures
        r == *o,
{
    match o {
        Some(j) => Some(j.copy()),
        None => None,
    }
}

impl DeletionRequest {
    pub fn copy(&self) -> (r: DeletionRequest)
        ensures
            r == *self,
    {
        DeletionRequest {
            id: self.id.clone(),
            flow_id: self.flow_id.clone(),
            timerange_to_delete: self.timerange_to_delete.clone(),
            timerange_remaining: copy_opt_str(&self.timerange_remaining),
            delete_flow: self.delete_flow,
            status: self.status,
            created: copy_opt_str(&self.created),
            created_by: copy_opt_str(&self.created_by),
            updated: copy_opt_str(&self.updated),
            expiry: copy_opt_str(&self.expiry),
            error: copy_opt_json(&self.error),
        }
    }
}

} // verus!
