//! Media objects: queries about them and their registered instances.
use vstd::prelude::*;
use crate::json::Json;
use crate::tags::TagFilters;
use crate::timerange::TimeRange;

verus! {

/// URL filters of an object query, and a tag filter on the flows listed.
pub struct ObjectQuery {
    pub presigned: Option<bool>,
    pub accept_get_urls: Option<Vec<String>>,
    pub accept_storage_ids: Option<Vec<String>>,
    pub verbose_storage: bool,
    pub flow_tag_filters: TagFilters,
}

/// What the store reports of a media object.
pub struct ObjectInfo {
    pub id: String,
    pub referenced_by_flows: Vec<String>,
    pub first_referenced_by_flow: Option<String>,
    pub timerange: TimeRange,
    pub get_urls: Vec<Json>,
}

/// An instance of a media object registered by a client at its own URL.
pub struct UncontrolledInstance {
    pub url: String,
    pub label: String,
}

/// A request to register an instance.
pub enum InstanceRequest {
    Controlled { storage_id: String },
    Uncontrolled { url: String, label: String },
}

/// Which instance to delete.
pub enum InstanceSelector<'a> {
    ByStorageId(&'a str),
    ByLabel(&'a str),
}

} // verus!
