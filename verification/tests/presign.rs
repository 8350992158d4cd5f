use aws_credential_types::Credentials;
use aws_sdk_s3::config::{Builder as S3ConfigBuilder, Region};
use tams::json::{Items, Json, Members};
use tams::presign::{allocate_with_urls, presigned_get_url, presigned_put_url, segments_with_urls, S3Bucket};
use tams::segment::{SegmentQuery, StorageRequest};
use tams::service::StorageBackend;
use tams::store::{Stamp, Store};

fn bucket() -> S3Bucket {
    let credentials = Credentials::new("access", "secret", None, None, "tests");
    let config = S3ConfigBuilder::new()
        .endpoint_url("http://localhost:9000")
        .region(Region::new("us-east-1"))
        .credentials_provider(credentials)
        .force_path_style(true)
        .retry_config(aws_sdk_s3::config::retry::RetryConfig::disabled())
        .timeout_config(aws_sdk_s3::config::timeout::TimeoutConfig::disabled())
        .stalled_stream_protection(aws_sdk_s3::config::StalledStreamProtectionConfig::disabled())
        .identity_cache(aws_sdk_s3::config::IdentityCache::no_cache())
        .build();
    S3Bucket { client: aws_sdk_s3::Client::from_conf(config), bucket: "tams-media".to_string() }
}

fn member(k: &str, v: Json, rest: Members) -> Members {
    Members::Cons(k.to_string(), v, Box::new(rest))
}

fn video_flow(id: &str) -> Json {
    let ep = Json::Object(Box::new(member(
        "frame_width",
        Json::Number("1920".into()),
        member("frame_height", Json::Number("1080".into()), Members::Nil),
    )));
    Json::Object(Box::new(member(
        "id",
        Json::Str(id.into()),
        member(
            "source_id",
            Json::Str("s1".into()),
            member(
                "format",
                Json::Str("urn:x-nmos:format:video".into()),
                member(
                    "codec",
                    Json::Str("video/h264".into()),
                    member("container", Json::Str("video/mp2t".into()), member("essence_parameters", ep, Members::Nil)),
                ),
            ),
        ),
    )))
}

fn segment(object_id: &str, tr: &str) -> Json {
    Json::Object(Box::new(member(
        "object_id",
        Json::Str(object_id.into()),
        member("timerange", Json::Str(tr.into()), Members::Nil),
    )))
}

fn stamp() -> Stamp {
    Stamp { now: "2024-01-01T00:00:00+00:00".into(), id: "v1".into() }
}

#[test]
fn signed_addresses_name_bucket_and_key() {
    let s3 = bucket();
    let get = presigned_get_url(&s3, "obj-1").ok().unwrap();
    assert!(get.contains("/tams-media/obj-1"));
    assert!(get.contains("X-Amz-Signature"));
    let put = presigned_put_url(&s3, "obj-2").ok().unwrap();
    assert!(put.contains("/tams-media/obj-2"));
    assert!(put.contains("X-Amz-Signature"));
}

#[test]
fn listed_segments_carry_the_signed_address() {
    let s3 = bucket();
    let mut store = Store::new(StorageBackend::default_s3("http://localhost:9000", "tams-media"));
    store.put_flow(video_flow("f1"), &stamp()).ok().unwrap();
    store.post_segments("f1", vec![segment("obj-9", "[0:0_1:0)")], &stamp()).ok().unwrap();
    let (docs, tr) = segments_with_urls(&store, &s3, "f1", &SegmentQuery::default());
    assert_eq!(tr.to_string(), "[0:0_1:0)");
    assert_eq!(docs.len(), 1);
    match docs[0].get("get_urls") {
        Some(Json::Array(items)) => match items.as_ref() {
            Items::Cons(u, _) => {
                assert!(u.get_str("url").unwrap().contains("/tams-media/obj-9"));
                assert_eq!(u.get_str("label").unwrap(), "s3");
            }
            Items::Nil => panic!("expected the signed address"),
        },
        _ => panic!("expected get_urls"),
    }
}

#[test]
fn allocations_carry_upload_addresses() {
    let s3 = bucket();
    let mut store = Store::new(StorageBackend::default_s3("http://localhost:9000", "tams-media"));
    store.put_flow(video_flow("f1"), &stamp()).ok().unwrap();
    let request = StorageRequest { limit: None, object_ids: Some(vec!["o1".into(), "o2".into()]), storage_id: None };
    let objs = allocate_with_urls(&store, &s3, "f1", request).ok().unwrap();
    assert_eq!(objs.len(), 2);
    assert_eq!(objs[1].object_id, "o2");
    assert!(objs[1].put_url.contains("/tams-media/o2"));
    assert_eq!(objs[0].content_type.as_deref(), Some("video/mp2t"));
}

#[test]
fn refused_allocations_give_the_store_error() {
    let s3 = bucket();
    let mut store = Store::new(StorageBackend::default_s3("http://localhost:9000", "tams-media"));
    store.put_flow(video_flow("f1"), &stamp()).ok().unwrap();
    let both = StorageRequest { limit: Some(2), object_ids: Some(vec!["o1".into()]), storage_id: None };
    match allocate_with_urls(&store, &s3, "f1", both) {
        Err(tams::error::StoreError::BadRequest(m)) => assert_eq!(m, "Cannot specify both limit and object_ids"),
        _ => panic!("expected a bad request"),
    }
    let missing = StorageRequest { limit: None, object_ids: None, storage_id: None };
    match allocate_with_urls(&store, &s3, "nope", missing) {
        Err(tams::error::StoreError::NotFound(m)) => assert_eq!(m, "Flow nope not found"),
        _ => panic!("expected not found"),
    }
}

#[test]
fn object_report_ends_with_the_store_address() {
    let s3 = bucket();
    let mut store = Store::new(StorageBackend::default_s3("http://localhost:9000", "tams-media"));
    store.put_flow(video_flow("f1"), &stamp()).ok().unwrap();
    store.post_segments("f1", vec![segment("obj-5", "[0:0_1:0)")], &stamp()).ok().unwrap();
    let query = tams::object::ObjectQuery {
        presigned: None,
        accept_get_urls: None,
        accept_storage_ids: Some(Vec::new()),
        verbose_storage: true,
        flow_tag_filters: tams::tags::TagFilters::from_query(""),
    };
    let info = tams::presign::object_with_urls(&store, &s3, "obj-5", &query).ok().unwrap();
    assert_eq!(info.first_referenced_by_flow.as_deref(), Some("f1"));
    let last = info.get_urls.last().unwrap();
    assert!(last.get_str("url").unwrap().contains("/tams-media/obj-5"));
    assert_eq!(last.get_str("label").unwrap(), "s3");
    assert_eq!(last.get_bool("presigned"), Some(true));
    assert_eq!(last.get_bool("controlled"), Some(true));
    assert!(last.get_str("storage_id").is_some());
}

#[test]
fn empty_allocation_succeeds_without_signing() {
    let s3 = bucket();
    let mut store = Store::new(StorageBackend::default_s3("http://localhost:9000", "tams-media"));
    store.put_flow(video_flow("f1"), &stamp()).ok().unwrap();
    let none = StorageRequest { limit: Some(0), object_ids: None, storage_id: None };
    assert_eq!(allocate_with_urls(&store, &s3, "f1", none).ok().unwrap().len(), 0);
    let empty = StorageRequest { limit: None, object_ids: Some(Vec::new()), storage_id: None };
    assert_eq!(allocate_with_urls(&store, &s3, "f1", empty).ok().unwrap().len(), 0);
}
