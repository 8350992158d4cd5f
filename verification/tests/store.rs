use tams::error::{DeleteResult, DeletionStatus, StoreError};
use tams::flow::FlowFilters;
use tams::json::{Items, Json, Members};
use tams::object::{InstanceRequest, InstanceSelector, ObjectQuery};
use tams::segment::{SegmentDeleteResult, SegmentPostResult, SegmentQuery, StorageRequest};
use tams::service::{ServicePost, StorageBackend};
use tams::source::{Source, SourceFilters};
use tams::store::{Stamp, Store};
use tams::tags::{TagFilters, TagValue};
use tams::timerange::TimeRange;
use tams::webhook::{StoreEvent, StoredWebhook, WebhookStatus};

fn to_doc(v: &serde_json::Value) -> Json {
    match v {
        serde_json::Value::Null => Json::Null,
        serde_json::Value::Bool(b) => Json::Bool(*b),
        serde_json::Value::Number(n) => Json::Number(n.to_string()),
        serde_json::Value::String(s) => Json::Str(s.clone()),
        serde_json::Value::Array(a) => {
            let mut items = Items::Nil;
            for x in a.iter().rev() {
                items = Items::Cons(to_doc(x), Box::new(items));
            }
            Json::Array(Box::new(items))
        }
        serde_json::Value::Object(m) => {
            let pairs: Vec<(&String, &serde_json::Value)> = m.iter().collect();
            let mut members = Members::Nil;
            for (k, x) in pairs.into_iter().rev() {
                members = Members::Cons(k.clone(), to_doc(x), Box::new(members));
            }
            Json::Object(Box::new(members))
        }
    }
}

fn doc(text: &str) -> Json {
    to_doc(&serde_json::from_str(text).unwrap())
}

fn stamp(n: u32) -> Stamp {
    Stamp { now: format!("2024-01-01T00:00:{:02}+00:00", n % 60), id: format!("stamp-{n}") }
}

fn new_store() -> Store {
    Store::new(StorageBackend::default_s3("http://localhost:9000", "tams-media"))
}

fn video_flow(id: &str, source_id: &str) -> Json {
    doc(&format!(
        r#"{{"id": "{id}", "source_id": "{source_id}", "format": "urn:x-nmos:format:video",
            "codec": "video/h264", "container": "video/mp2t",
            "essence_parameters": {{"frame_width": 1920, "frame_height": 1080}}}}"#
    ))
}

fn data_flow(id: &str, source_id: &str) -> Json {
    doc(&format!(r#"{{"id": "{id}", "source_id": "{source_id}", "format": "urn:x-nmos:format:data"}}"#))
}

fn segment(object_id: &str, timerange: &str) -> Json {
    doc(&format!(r#"{{"object_id": "{object_id}", "timerange": "{timerange}"}}"#))
}

fn test_source(id: &str) -> Source {
    Source {
        id: id.into(),
        format: "urn:x-nmos:format:video".into(),
        label: None,
        description: None,
        tags: None,
        created_by: None,
        updated_by: None,
        created: None,
        updated: None,
        source_collection: None,
        collected_by: None,
    }
}

fn webhook(url: &str, events: Vec<&str>) -> StoredWebhook {
    StoredWebhook {
        id: String::new(),
        url: url.into(),
        events: events.into_iter().map(String::from).collect(),
        api_key_name: None,
        api_key_value: None,
        flow_ids: None,
        source_ids: None,
        flow_collected_by_ids: None,
        source_collected_by_ids: None,
        accept_get_urls: None,
        accept_storage_ids: None,
        presigned: None,
        verbose_storage: None,
        tags: None,
        status: WebhookStatus::Created,
        error: None,
    }
}

fn bad_request_message(r: Result<(bool, Option<Json>), StoreError>) -> String {
    match r {
        Err(StoreError::BadRequest(m)) => m,
        _ => panic!("expected a bad request"),
    }
}

fn object_query() -> ObjectQuery {
    ObjectQuery {
        presigned: None,
        accept_get_urls: None,
        accept_storage_ids: None,
        verbose_storage: false,
        flow_tag_filters: TagFilters::default(),
    }
}

#[test]
fn service_info_defaults_and_update() {
    let mut store = new_store();
    assert_eq!(store.get_service_info().api_version, "8.0");
    let info = store.update_service_info(ServicePost { name: Some("Mine".into()), description: None });
    assert_eq!(info.name.as_deref(), Some("Mine"));
    assert_eq!(store.storage_backends().len(), 1);
    assert_eq!(store.storage_backends()[0].label.as_deref(), Some("s3"));
}

#[test]
fn put_flow_creates_then_updates() {
    let mut store = new_store();
    let (created, d) = store.put_flow(data_flow("f1", "s1"), &stamp(1)).unwrap();
    assert!(created);
    let d = d.unwrap();
    assert_eq!(d.get_str("id").unwrap(), "f1");
    assert_eq!(d.get_str("created").unwrap(), "2024-01-01T00:00:01+00:00");
    assert_eq!(d.get_str("metadata_version").unwrap(), "stamp-1");
    let updated = doc(r#"{"id": "f1", "source_id": "s1", "format": "urn:x-nmos:format:data", "label": "Updated"}"#);
    let (created2, d2) = store.put_flow(updated, &stamp(2)).unwrap();
    assert!(!created2);
    assert!(d2.is_none());
    let flow = store.get_flow("f1").unwrap();
    assert_eq!(flow.get_str("label").unwrap(), "Updated");
    assert_eq!(flow.get_str("created").unwrap(), "2024-01-01T00:00:01+00:00");
}

#[test]
fn put_flow_auto_creates_source() {
    let mut store = new_store();
    store.put_flow(data_flow("f1", "auto-src"), &stamp(1)).unwrap();
    let s = store.get_source("auto-src").unwrap();
    assert_eq!(s.format, "urn:x-nmos:format:data");
    assert!(store.get_flow("missing").is_none());
}

#[test]
fn put_flow_validation_messages() {
    let mut store = new_store();
    let m = bad_request_message(store.put_flow(doc(r#"{"source_id": "s", "format": "urn:x-nmos:format:data"}"#), &stamp(1)));
    assert_eq!(m, "Missing required field: id");
    let m = bad_request_message(store.put_flow(doc(r#"{"id": "f", "format": "urn:x-nmos:format:data"}"#), &stamp(1)));
    assert_eq!(m, "Missing required field: source_id");
    let m = bad_request_message(store.put_flow(doc(r#"{"id": "f", "source_id": "s", "format": "bogus"}"#), &stamp(1)));
    assert!(m.starts_with("Unrecognized format: bogus"));
    let m = bad_request_message(store.put_flow(doc(r#"{"id": "f", "source_id": "s", "format": "urn:x-nmos:format:video"}"#), &stamp(1)));
    assert_eq!(m, "urn:x-nmos:format:video flows require a codec field");
    let m = bad_request_message(store.put_flow(
        doc(r#"{"id": "f", "source_id": "s", "format": "urn:x-nmos:format:video", "codec": "video/h264"}"#),
        &stamp(1),
    ));
    assert_eq!(m, "urn:x-nmos:format:video flows require essence_parameters");
    let m = bad_request_message(store.put_flow(doc(r#"{"id": "../../tmp/evil", "source_id": "s", "format": "urn:x-nmos:format:data"}"#), &stamp(1)));
    assert_eq!(m, "Flow ID contains invalid path characters");
    let m = bad_request_message(store.put_flow(doc(r#"[1, 2]"#), &stamp(1)));
    assert_eq!(m, "Flow must be a JSON object");
    assert!(store.get_flow("f").is_none());
}

#[test]
fn read_only_flow_rejects_update_and_edits() {
    let mut store = new_store();
    store.put_flow(data_flow("f1", "s1"), &stamp(1)).unwrap();
    store.set_flow_read_only("f1", true, &stamp(2)).unwrap();
    assert_eq!(store.get_flow_read_only("f1"), Some(true));
    assert!(matches!(store.put_flow(data_flow("f1", "s1"), &stamp(3)), Err(StoreError::ReadOnly)));
    assert!(matches!(store.set_flow_tag("f1", "a", TagValue::Single("b".into()), &stamp(4)), Err(StoreError::ReadOnly)));
    store.set_flow_read_only("f1", false, &stamp(5)).unwrap();
    assert_eq!(store.get_flow_read_only("f1"), Some(false));
}

#[test]
fn flow_tag_crud() {
    let mut store = new_store();
    store.put_flow(data_flow("f1", "s1"), &stamp(1)).unwrap();
    store.set_flow_tag("f1", "genre", TagValue::Single("news".into()), &stamp(2)).unwrap();
    assert_eq!(store.get_flow_tag("f1", "genre"), Some(&TagValue::Single("news".into())));
    assert_eq!(store.get_flow_tags("f1").unwrap().unwrap().len(), 1);
    store.delete_flow_tag("f1", "genre", &stamp(3)).unwrap();
    assert!(store.get_flow_tag("f1", "genre").is_none());
    match store.set_flow_tag("nope", "a", TagValue::Single("b".into()), &stamp(4)) {
        Err(StoreError::NotFound(m)) => assert_eq!(m, "Flow nope not found"),
        _ => panic!("expected not found"),
    }
}

#[test]
fn flow_label_property() {
    let mut store = new_store();
    store.put_flow(data_flow("f1", "s1"), &stamp(1)).unwrap();
    store.set_flow_property("f1", "label", Json::Str("My Flow".into()), &stamp(2)).unwrap();
    match store.get_flow_property("f1", "label") {
        Some(Some(Json::Str(s))) => assert_eq!(s, "My Flow"),
        _ => panic!("expected the label"),
    }
    store.delete_flow_property("f1", "label", &stamp(3)).unwrap();
    assert!(matches!(store.get_flow_property("f1", "label"), Some(None)));
    assert_eq!(store.get_flow("f1").unwrap().get_str("metadata_version").unwrap(), "stamp-3");
}

#[test]
fn post_and_get_segments() {
    let mut store = new_store();
    store.put_flow(video_flow("f1", "s1"), &stamp(1)).unwrap();
    let r = store.post_segments("f1", vec![segment("obj-2", "[1:0_2:0)"), segment("obj-1", "[0:0_1:0)")], &stamp(2));
    assert!(matches!(r, Ok(SegmentPostResult::AllCreated)));
    let listing = store.get_segments("f1", &SegmentQuery::default());
    assert_eq!(listing.documents.len(), 2);
    assert_eq!(listing.object_ids[0], "obj-1");
    assert_eq!(listing.object_ids[1], "obj-2");
    assert_eq!(listing.timerange.to_string(), "[0:0_2:0)");
    assert!(listing.include_controlled_url);
    assert_eq!(store.get_flow("f1").unwrap().get_str("timerange").unwrap(), "[0:0_2:0)");
    let mut q = SegmentQuery::default();
    q.reverse_order = true;
    let rev = store.get_segments("f1", &q);
    assert_eq!(rev.object_ids[0], "obj-2");
}

#[test]
fn post_segments_rejects_overlap() {
    let mut store = new_store();
    store.put_flow(video_flow("f1", "s1"), &stamp(1)).unwrap();
    store.post_segments("f1", vec![segment("obj-1", "[0:0_1:0)")], &stamp(2)).unwrap();
    let result = store.post_segments("f1", vec![segment("obj-2", "[0:500000000_1:500000000)")], &stamp(3));
    assert!(matches!(result, Err(StoreError::BadRequest(_))));
    assert_eq!(store.get_segments("f1", &SegmentQuery::default()).documents.len(), 1);
}

#[test]
fn post_segments_partial_failure_reports_each() {
    let mut store = new_store();
    store.put_flow(video_flow("f1", "s1"), &stamp(1)).unwrap();
    let r = store.post_segments(
        "f1",
        vec![segment("a", "[0:0_1:0)"), segment("b", "[0:500000000_2:0)"), segment("c", "bad")],
        &stamp(2),
    );
    match r {
        Ok(SegmentPostResult::PartialFailure(f)) => {
            assert_eq!(f.len(), 2);
            assert_eq!(f[0].object_id, "b");
            assert_eq!(f[1].object_id, "c");
            assert_eq!(f[0].error, "Segment timerange overlaps with existing segment");
            assert_eq!(f[1].error, "Invalid timerange: invalid timerange: invalid timestamp: missing colon in 'bad'");
        }
        _ => panic!("expected a partial failure"),
    }
}

#[test]
fn post_segments_on_missing_or_uncontained_flow_fails() {
    let mut store = new_store();
    match store.post_segments("nope", vec![segment("a", "[0:0_1:0)")], &stamp(1)) {
        Err(StoreError::NotFound(m)) => assert_eq!(m, "Flow nope not found"),
        _ => panic!("expected not found"),
    }
    store.put_flow(data_flow("d1", "s1"), &stamp(2)).unwrap();
    match store.post_segments("d1", vec![segment("a", "[0:0_1:0)")], &stamp(3)) {
        Err(StoreError::BadRequest(m)) => assert_eq!(m, "Flow must have a container set"),
        _ => panic!("expected a refusal"),
    }
}

#[test]
fn delete_segments_by_range() {
    let mut store = new_store();
    store.put_flow(video_flow("f1", "s1"), &stamp(1)).unwrap();
    store.post_segments("f1", vec![segment("a", "[0:0_1:0)"), segment("b", "[1:0_2:0)")], &stamp(2)).unwrap();
    let mut q = SegmentQuery::default();
    q.timerange = Some(TimeRange::parse("[0:0_1:0)").ok().unwrap());
    let r = store.delete_segments("f1", &q, &stamp(3));
    assert!(matches!(r, Ok(SegmentDeleteResult::Deleted)));
    let left = store.get_segments("f1", &SegmentQuery::default());
    assert_eq!(left.object_ids.len(), 1);
    assert_eq!(left.object_ids[0], "b");
}

#[test]
fn delete_flow_without_segments_is_immediate() {
    let mut store = new_store();
    store.put_flow(data_flow("f1", "s1"), &stamp(1)).unwrap();
    store.take_events();
    assert!(matches!(store.delete_flow("f1", &stamp(2)), Ok(DeleteResult::Deleted)));
    assert!(store.get_flow("f1").is_none());
    let events = store.take_events();
    assert_eq!(events.len(), 1);
    assert_eq!(events[0].event_type(), "flows/deleted");
    assert!(matches!(store.delete_flow("f1", &stamp(3)), Ok(DeleteResult::NotFound)));
}

#[test]
fn delete_flow_with_segments_starts_a_request() {
    let mut store = new_store();
    store.put_flow(video_flow("f1", "s1"), &stamp(1)).unwrap();
    store.post_segments("f1", vec![segment("a", "[0:0_1:0)")], &stamp(2)).unwrap();
    let req = match store.delete_flow("f1", &stamp(3)) {
        Ok(DeleteResult::Async(req)) => req,
        _ => panic!("expected a deletion request"),
    };
    assert_eq!(req.id, "stamp-3");
    assert_eq!(req.flow_id, "f1");
    assert_eq!(req.status, DeletionStatus::Created);
    assert!(store.get_flow("f1").is_none());
    store.set_deletion_status("stamp-3", DeletionStatus::Started, None, "2024-01-01T00:01:00+00:00");
    store.cleanup_flow_segments("f1");
    store.dispatch_flow_deleted("f1", "s1", vec![]);
    store.set_deletion_status("stamp-3", DeletionStatus::Done, None, "2024-01-01T00:01:01+00:00");
    let done = store.get_deletion_request("stamp-3").unwrap();
    assert_eq!(done.status, DeletionStatus::Done);
    assert!(done.timerange_remaining.is_none());
    assert!(store.flow_segments("f1").is_none());
    let st = Stamp { now: "2024-01-01T00:01:30+00:00".into(), id: "x".into() };
    assert_eq!(store.list_deletion_requests(&st).len(), 1);
    let later = Stamp { now: "2024-01-01T00:02:30+00:00".into(), id: "y".into() };
    assert_eq!(store.list_deletion_requests(&later).len(), 0);
}

#[test]
fn read_only_flow_cannot_be_deleted() {
    let mut store = new_store();
    store.put_flow(data_flow("f1", "s1"), &stamp(1)).unwrap();
    store.set_flow_read_only("f1", true, &stamp(2)).unwrap();
    assert!(matches!(store.delete_flow("f1", &stamp(3)), Err(StoreError::ReadOnly)));
    assert!(store.get_flow("f1").is_some());
}

#[test]
fn delete_source_removes_its_flows() {
    let mut store = new_store();
    store.put_flow(data_flow("f1", "s1"), &stamp(1)).unwrap();
    store.put_flow(data_flow("f2", "s1"), &stamp(2)).unwrap();
    store.put_flow(data_flow("g1", "s2"), &stamp(3)).unwrap();
    assert!(matches!(store.delete_source("s1", "2024-01-01T00:00:09+00:00"), Ok(DeleteResult::Deleted)));
    assert!(store.get_flow("f1").is_none());
    assert!(store.get_flow("f2").is_none());
    assert!(store.get_flow("g1").is_some());
    assert!(store.get_source("s1").is_none());
    assert!(matches!(store.delete_source("s1", "2024-01-01T00:00:10+00:00"), Ok(DeleteResult::NotFound)));
}

#[test]
fn source_crud_and_listing() {
    let mut store = new_store();
    store.load_source(test_source("src-1"));
    let mut audio = test_source("src-2");
    audio.format = "urn:x-nmos:format:audio".into();
    store.load_source(audio);
    store.set_source_label("src-1", "Camera".into(), &stamp(1)).unwrap();
    assert_eq!(store.get_source_label("src-1").unwrap().as_deref(), Some("Camera"));
    store.set_source_description("src-1", "Desc".into(), &stamp(2)).unwrap();
    assert_eq!(store.get_source_description("src-1").unwrap().as_deref(), Some("Desc"));
    store.delete_source_label("src-1", &stamp(3)).unwrap();
    assert!(store.get_source_label("src-1").unwrap().is_none());
    store.set_source_tag("src-1", "genre", TagValue::Single("news".into()), &stamp(4)).unwrap();
    assert_eq!(store.get_source_tag("src-1", "genre"), Some(&TagValue::Single("news".into())));
    store.delete_source_tag("src-1", "genre", &stamp(5)).unwrap();
    assert!(store.get_source_tag("src-1", "genre").is_none());
    assert!(matches!(store.set_source_tag("nope", "a", TagValue::Single("b".into()), &stamp(6)), Err(StoreError::NotFound(_))));
    let all = store.list_sources(&SourceFilters::default(), &TagFilters::default());
    assert_eq!(all.len(), 2);
    assert_eq!(all[0].id, "src-1");
    let filters = SourceFilters { label: None, format: Some("urn:x-nmos:format:audio".into()) };
    let audio_only = store.list_sources(&filters, &TagFilters::default());
    assert_eq!(audio_only.len(), 1);
    assert_eq!(audio_only[0].id, "src-2");
}

#[test]
fn list_flows_filters_and_orders() {
    let mut store = new_store();
    store.put_flow(data_flow("b", "s1"), &stamp(1)).unwrap();
    store.put_flow(video_flow("a", "s2"), &stamp(2)).unwrap();
    let all = store.list_flows(&FlowFilters::default(), &TagFilters::default(), false);
    assert_eq!(all.len(), 2);
    assert_eq!(all[0].get_str("id").unwrap(), "a");
    let mut f = FlowFilters::default();
    f.format = Some("urn:x-nmos:format:data".into());
    let data = store.list_flows(&f, &TagFilters::default(), false);
    assert_eq!(data.len(), 1);
    assert_eq!(data[0].get_str("id").unwrap(), "b");
}

#[test]
fn flow_collection_links_children() {
    let mut store = new_store();
    store.put_flow(data_flow("parent", "sp"), &stamp(1)).unwrap();
    store.put_flow(data_flow("child", "sc"), &stamp(2)).unwrap();
    store.set_flow_collection("parent", doc(r#"[{"id": "child", "role": "video"}]"#), &stamp(3)).unwrap();
    let child = store.get_flow("child").unwrap();
    match child.get("collected_by") {
        Some(Json::Array(items)) => match items.as_ref() {
            Items::Cons(Json::Str(p), _) => assert_eq!(p, "parent"),
            _ => panic!("expected the parent"),
        },
        _ => panic!("expected collected_by"),
    }
    store.delete_flow_collection("parent", &stamp(4)).unwrap();
    assert!(matches!(store.get_flow_property("parent", "flow_collection"), Some(None)));
}

#[test]
fn allocate_storage_counts_and_refusals() {
    let mut store = new_store();
    store.put_flow(video_flow("f1", "s1"), &stamp(1)).unwrap();
    let objs = store.allocate_storage("f1", StorageRequest { limit: Some(3), object_ids: None, storage_id: None }).ok().unwrap();
    assert_eq!(objs.len(), 3);
    assert_eq!(objs[0].content_type.as_deref(), Some("video/mp2t"));
    let named = store
        .allocate_storage("f1", StorageRequest { limit: None, object_ids: Some(vec!["o1".into()]), storage_id: None })
        .ok()
        .unwrap();
    assert_eq!(named[0].object_id, "o1");
    match store.allocate_storage("f1", StorageRequest { limit: Some(1), object_ids: Some(vec![]), storage_id: None }) {
        Err(StoreError::BadRequest(m)) => assert_eq!(m, "Cannot specify both limit and object_ids"),
        _ => panic!("expected a refusal"),
    }
    match store.allocate_storage("f1", StorageRequest { limit: None, object_ids: None, storage_id: Some("zzz".into()) }) {
        Err(StoreError::BadRequest(m)) => assert_eq!(m, "Invalid storage backend identifier: zzz"),
        _ => panic!("expected a refusal"),
    }
}

#[test]
fn objects_and_instances() {
    let mut store = new_store();
    store.put_flow(video_flow("f1", "s1"), &stamp(1)).unwrap();
    store.put_flow(video_flow("f2", "s1"), &stamp(2)).unwrap();
    store.post_segments("f2", vec![segment("obj-1", "[0:0_1:0)")], &stamp(3)).unwrap();
    store.post_segments("f1", vec![segment("obj-1", "[5:0_6:0)")], &stamp(4)).unwrap();
    let info = store.get_object("obj-1", &object_query(), Some("https://signed/get")).ok().unwrap();
    assert_eq!(info.referenced_by_flows, vec!["f1".to_string(), "f2".to_string()]);
    assert_eq!(info.first_referenced_by_flow.as_deref(), Some("f1"));
    assert_eq!(info.timerange.to_string(), "[0:0_6:0)");
    assert_eq!(info.get_urls.len(), 1);
    assert_eq!(info.get_urls[0].get_str("url").unwrap(), "https://signed/get");
    match store.get_object("nope", &object_query(), None) {
        Err(StoreError::NotFound(m)) => assert_eq!(m, "Object nope not found"),
        _ => panic!("expected not found"),
    }
    store
        .add_object_instance("obj-1", InstanceRequest::Uncontrolled { url: "http://cdn/x".into(), label: "cdn".into() })
        .ok()
        .unwrap();
    match store.add_object_instance("obj-1", InstanceRequest::Uncontrolled { url: "http://cdn/y".into(), label: "cdn".into() }) {
        Err(StoreError::BadRequest(m)) => assert_eq!(m, "Instance with label 'cdn' already exists"),
        _ => panic!("expected a refusal"),
    }
    match store.add_object_instance("obj-1", InstanceRequest::Uncontrolled { url: "http://x".into(), label: "s3".into() }) {
        Err(StoreError::BadRequest(m)) => assert_eq!(m, "Label 's3' conflicts with a storage backend label"),
        _ => panic!("expected a refusal"),
    }
    match store.add_object_instance("obj-1", InstanceRequest::Controlled { storage_id: "nope".into() }) {
        Err(StoreError::BadRequest(m)) => assert_eq!(m, "Unknown storage backend: nope"),
        _ => panic!("expected a refusal"),
    }
    let info = store.get_object("obj-1", &object_query(), None).ok().unwrap();
    assert_eq!(info.get_urls.len(), 1);
    assert_eq!(info.get_urls[0].get_str("label").unwrap(), "cdn");
    let sid = store.storage_backends()[0].id.clone();
    match store.delete_object_instance("obj-1", InstanceSelector::ByStorageId(&sid)) {
        Err(StoreError::BadRequest(m)) => assert_eq!(m, "Cannot delete the only controlled instance"),
        _ => panic!("expected a refusal"),
    }
    match store.delete_object_instance("obj-1", InstanceSelector::ByLabel("other")) {
        Err(StoreError::NotFound(m)) => assert_eq!(m, "No instance with label 'other'"),
        _ => panic!("expected not found"),
    }
    store.delete_object_instance("obj-1", InstanceSelector::ByLabel("cdn")).ok().unwrap();
    assert!(store.object_instances("obj-1").is_none());
}

#[test]
fn webhook_lifecycle() {
    let mut store = new_store();
    let mut wh = webhook("http://example.com", vec!["flows/created"]);
    wh.api_key_name = Some("X-Api-Key".into());
    wh.api_key_value = Some("secret".into());
    wh.status = WebhookStatus::Started;
    let created = store.create_webhook(wh, &stamp(1));
    assert_eq!(created.id, "stamp-1");
    assert_eq!(created.status, WebhookStatus::Created);
    let mut update = webhook("http://example.com/new", vec!["flows/created"]);
    update.id = "stamp-1".into();
    let updated = store.update_webhook("stamp-1", update).ok().unwrap();
    assert_eq!(updated.api_key_value.as_deref(), Some("secret"));
    assert_eq!(updated.url, "http://example.com/new");
    let mut bad = webhook("http://example.com/new", vec!["flows/created"]);
    bad.status = WebhookStatus::Error;
    assert!(store.update_webhook("stamp-1", bad).is_err());
    assert_eq!(store.list_webhooks(&TagFilters::default()).len(), 1);
    store.put_flow(data_flow("f1", "s1"), &stamp(2)).unwrap();
    let events = store.take_events();
    let last = events.last().unwrap();
    assert_eq!(store.webhooks_hearing(last).len(), 1);
    store.record_delivery("stamp-1", true);
    assert_eq!(store.get_webhook("stamp-1").ok().unwrap().status, WebhookStatus::Started);
    store.record_delivery("stamp-1", false);
    assert_eq!(store.get_webhook("stamp-1").ok().unwrap().status, WebhookStatus::Error);
    store.delete_webhook("stamp-1").ok().unwrap();
    match store.delete_webhook("stamp-1") {
        Err(StoreError::NotFound(m)) => assert_eq!(m, "Webhook stamp-1 not found"),
        _ => panic!("expected not found"),
    }
}

#[test]
fn events_record_changes_in_order() {
    let mut store = new_store();
    store.put_flow(data_flow("f1", "s1"), &stamp(1)).unwrap();
    store.put_flow(data_flow("f1", "s1"), &stamp(2)).unwrap();
    let events = store.take_events();
    let types: Vec<&str> = events.iter().map(|e| e.event_type()).collect();
    assert_eq!(types, vec!["sources/created", "flows/created", "flows/updated"]);
    assert!(matches!(&events[1], StoreEvent::FlowCreated { source_id, .. } if source_id == "s1"));
    assert!(store.take_events().is_empty());
}

#[test]
fn loading_restores_documents() {
    let mut store = new_store();
    assert!(store.load_flow(video_flow("f1", "s1")));
    assert!(!store.load_flow(doc(r#"{"id": "x"}"#)));
    assert!(store.load_segment(doc(r#"{"flow_id": "f1", "object_id": "o", "timerange": "[0:0_1:0)"}"#)));
    assert!(!store.load_segment(doc(r#"{"flow_id": "f1", "object_id": "o", "timerange": "nope"}"#)));
    assert_eq!(store.flow_segments("f1").unwrap().len(), 1);
    store.load_instances("o".into(), vec![]);
    assert_eq!(store.instance_object_ids(), vec!["o".to_string()]);
}

#[test]
fn create_source_fills_defaults_without_an_event() {
    let mut store = new_store();
    store.create_source(test_source("s9"), "2024-05-01T00:00:00+00:00");
    let s = store.get_source("s9").unwrap();
    assert_eq!(s.created.as_deref(), Some("2024-05-01T00:00:00+00:00"));
    assert_eq!(s.updated.as_deref(), Some("2024-05-01T00:00:00+00:00"));
    assert_eq!(s.created_by.as_deref(), Some("server"));
    assert!(s.tags.as_ref().unwrap().is_empty());
    assert!(store.take_events().is_empty());
}

#[test]
fn empty_storage_id_filter_keeps_the_store_url() {
    let none: Option<Vec<String>> = None;
    let empty: Option<Vec<String>> = Some(Vec::new());
    let other: Option<Vec<String>> = Some(vec!["x".to_string()]);
    assert!(tams::segment::should_include_controlled_url(None, true, &none, &empty, "b1", "s3"));
    assert!(!tams::segment::should_include_controlled_url(None, true, &none, &other, "b1", "s3"));
    assert!(!tams::segment::should_include_controlled_url(None, true, &empty, &none, "b1", "s3"));
}
