//! The service description and its storage backends.
use vstd::prelude::*;
use crate::json::Json;
use crate::sys::new_uuid;

verus! {

/// The service description.
pub struct ServiceInfo {
    pub service_type: String,
    pub api_version: String,
    pub min_object_timeout: String,
    pub name: Option<String>,
    pub description: Option<String>,
    pub service_version: Option<String>,
    pub event_stream_mechanisms: Option<Vec<EventStreamMechanism>>,
    pub min_presigned_url_timeout: Option<String>,
}

/// A way the service delivers events.
pub struct EventStreamMechanism {
    pub name: String,
    pub docs: Option<String>,
    pub config: Option<Json>,
}

impl Default for ServiceInfo {
    fn default() -> (r: Self)
        ensures
            r.service_type@ == "urn:x-tams:service:rustytams"@,
            r.api_version@ == "8.0"@,
            r.min_object_timeout@ == "600:0"@,
            r.name matches Some(n) && n@ == "RustyTAMS"@,
            r.description matches Some(d) && d@ == "A Rust implementation of the Time-addressable Media Store"@,
            r.service_version matches Some(v) && v@ == "0.1.0"@,
            r.event_stream_mechanisms matches Some(m) && m@.len() == 1 && m@[0].name@ == "webhooks"@
                && m@[0].docs is None && m@[0].config is None,
            r.min_presigned_url_timeout matches Some(t) && t@ == "600:0"@,
    {
        let mut mechanisms: Vec<EventStreamMechanism> = Vec::new();
        mechanisms.push(EventStreamMechanism { name: "webhooks".to_owned(), docs: None, config: None });
        ServiceInfo {
            service_type: "urn:x-tams:service:rustytams".to_owned(),
            api_version: "8.0".to_owned(),
            min_object_timeout: "600:0".to_owned(),
            name: Some("RustyTAMS".to_owned()),
            description: Some("A Rust implementation of the Time-addressable Media Store".to_owned()),
            service_version: Some("0.1.0".to_owned()),
            event_stream_mechanisms: Some(mechanisms),
            min_presigned_url_timeout: Some("600:0".to_owned()),
        }
    }
}

/// A change to the service's name and description.
pub struct ServicePost {
    pub name: Option<String>,
    pub description: Option<String>,
}

/// A storage backend of the service.
pub struct StorageBackend {
    pub id: String,
    pub store_type: String,
    pub provider: String,
    pub store_product: String,
    pub label: Option<String>,
    pub region: Option<String>,
    pub availability_zone: Option<String>,
    pub default_storage: Option<bool>,
}

impl StorageBackend {
    /// The S3 bucket backend: a fresh id, labelled `s3`, the default.
    pub fn default_s3(endpoint: &str, bucket: &str) -> (r: Self)
        ensures
            r.id@.len() == 36,
            r.store_type@ == "http_object_store"@,
            r.provider@ == "s3"@,
            r.store_product@ == "s3:"@ + endpoint@ + "/"@ + bucket@,
            r.label matches Some(l) && l@ == "s3"@,
            r.region is None,
            r.availability_zone is None,
            r.default_storage == Some(true),
    {
        StorageBackend {
            id: new_uuid(),
            store_type: "http_object_store".to_owned(),
            provider: "s3".to_owned(),
            store_product: String::from_str("s3:").concat(endpoint).concat("/").concat(bucket),
            label: Some("s3".to_owned()),
            region: None,
            availability_zone: None,
            default_storage: Some(true),
        }
    }
}

} // verus!
