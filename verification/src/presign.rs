//! Signed addresses for media objects in the store's S3 bucket, and the
//! listings and allocations that carry them.
use vstd::prelude::*;
use crate::error::StoreError;
use crate::json::{items_seq, json_get, Json};
use crate::object::{ObjectInfo, ObjectQuery};
use crate::segment::{add_get_url, build_controlled_url, controlled_entry, selected, seg_ranges, shown_document, union_of, AllocatedObject,
    SegmentQuery, StorageRequest};
use crate::store::{instance_url_shown, listed_position, Store};
use crate::timerange::TimeRange;

verus! {

#[verifier::external_type_specification]
#[verifier::external_body]
pub struct ExS3Client(aws_sdk_s3::Client);

#[verifier::external_type_specification]
#[verifier::external_body]
pub struct ExPresigningConfig(aws_sdk_s3::presigning::PresigningConfig);

/// The bucket that holds the media objects, and a client for it.
pub struct S3Bucket {
    pub client: aws_sdk_s3::Client,
    pub bucket: String,
}

/// How long a signed address stays valid, in seconds.
pub const PRESIGN_EXPIRY_SECS: u64 = 3600;

/// `PresigningConfig::expires_in` of aws-sdk-s3: signing settings for
/// addresses valid for `secs` seconds from the current time. It fails, with
/// its error's text, exactly when that is longer than one week.
#[verifier::external_body]
fn presigning_config(secs: u64) -> (r: Result<aws_sdk_s3::presigning::PresigningConfig, String>)
    ensures
        r is Ok <==> secs <= 604800,
{
    aws_sdk_s3::presigning::PresigningConfig::expires_in(std::time::Duration::from_secs(secs)).map_err(|e| e.to_string())
}

/// The bucket and object key of the `GetObject` request that a presigned
/// address stands for. How the address writes them (path style or virtual
/// host, percent-encoding) depends on the client's configuration, so they
/// are named here, not parsed.
pub uninterp spec fn presigned_get_target(uri: Seq<char>) -> (Seq<char>, Seq<char>);

/// The bucket and object key of the `PutObject` request that a presigned
/// address stands for, named as for `GetObject`.
pub uninterp spec fn presigned_put_target(uri: Seq<char>) -> (Seq<char>, Seq<char>);

/// The `presigned` form of aws-sdk-s3's `GetObject` for `key` in `bucket`:
/// its URI, signed with the client's credentials. Signing makes no request;
/// the future is run to completion here. The address's text depends on the
/// time and the credentials; what is stated is the request it stands for,
/// `GetObject` of `key` in `bucket`. An error gives its text.
#[verifier::external_body]
fn presign_get(client: &aws_sdk_s3::Client, bucket: &str, key: &str, config: aws_sdk_s3::presigning::PresigningConfig) -> (r: Result<String, String>)
    ensures
        r matches Ok(u) ==> presigned_get_target(u@) == (bucket@, key@),
{
    let request = client.get_object().bucket(bucket).key(key).presigned(config);
    match futures::executor::block_on(request) {
        Ok(p) => Ok(p.uri().to_owned()),
        Err(e) => Err(e.to_string()),
    }
}

/// The `presigned` form of aws-sdk-s3's `PutObject` for `key` in `bucket`:
/// its URI, signed with the client's credentials. Signing makes no request;
/// the future is run to completion here. The address's text depends on the
/// time and the credentials; what is stated is the request it stands for,
/// `PutObject` of `key` in `bucket`. An error gives its text.
#[verifier::external_body]
fn presign_put(client: &aws_sdk_s3::Client, bucket: &str, key: &str, config: aws_sdk_s3::presigning::PresigningConfig) -> (r: Result<String, String>)
    ensures
        r matches Ok(u) ==> presigned_put_target(u@) == (bucket@, key@),
{
    let request = client.put_object().bucket(bucket).key(key).presigned(config);
    match futures::executor::block_on(request) {
        Ok(p) => Ok(p.uri().to_owned()),
        Err(e) => Err(e.to_string()),
    }
}

/// Whether an error is an internal one whose message begins with `prefix`.
pub open spec fn internal_with_prefix(e: StoreError, prefix: Seq<char>) -> bool {
    e matches StoreError::Internal(m) && m@.len() >= prefix.len() && m@.take(prefix.len() as int) == prefix
}

/// A signed download address for an object, valid for an hour.
pub fn presigned_get_url(s3: &S3Bucket, object_id: &str) -> (r: Result<String, StoreError>)
    ensures
        r matches Ok(u) ==> presigned_get_target(u@) == (s3.bucket@, object_id@),
        r matches Err(e) ==> internal_with_prefix(e, "presign GET error: "@),
{
    let config = match presigning_config(PRESIGN_EXPIRY_SECS) {
        Ok(c) => c,
        Err(_) => {
            assert(false);
            return Err(StoreError::Internal(String::new()));
        },
    };
    match presign_get(&s3.client, s3.bucket.as_str(), object_id, config) {
        Ok(u) => Ok(u),
        Err(m) => {
            let prefix = String::from_str("presign GET error: ");
            let msg = prefix.concat(m.as_str());
            assert(msg@.take(prefix@.len() as int) =~= prefix@);
            Err(StoreError::Internal(msg))
        },
    }
}

/// A signed upload address for an object, valid for an hour.
pub fn presigned_put_url(s3: &S3Bucket, object_id: &str) -> (r: Result<String, StoreError>)
    ensures
        r matches Ok(u) ==> presigned_put_target(u@) == (s3.bucket@, object_id@),
        r matches Err(e) ==> internal_with_prefix(e, "presign PUT error: "@),
{
    let config = match presigning_config(PRESIGN_EXPIRY_SECS) {
        Ok(c) => c,
        Err(_) => {
            assert(false);
            return Err(StoreError::Internal(String::new()));
        },
    };
    match presign_put(&s3.client, s3.bucket.as_str(), object_id, config) {
        Ok(u) => Ok(u),
        Err(m) => {
            let prefix = String::from_str("presign PUT error: ");
            let msg = prefix.concat(m.as_str());
            assert(msg@.take(prefix@.len() as int) =~= prefix@);
            Err(StoreError::Internal(msg))
        },
    }
}

/// A listed document with one more URL at the end of its `get_urls`.
pub open spec fn url_appended(doc: Json, r: Json, url: Json) -> bool {
    &&& json_get(doc, "get_urls"@) matches Some(Json::Array(l)) ==> ((json_get(r, "get_urls"@) matches Some(Json::Array(l2))
        && items_seq(*l2) == items_seq(*l).push(url))
        && (forall|k: Seq<char>| k != "get_urls"@ ==> #[trigger] json_get(r, k) == json_get(doc, k)))
    &&& !(json_get(doc, "get_urls"@) matches Some(Json::Array(_))) ==> r == doc
}

/// `u` is the store's own `get_urls` entry for a signed download address
/// of the object `object_id` in `bucket`: marked presigned, with the label
/// of the store's first backend ("s3" when it has none) and, when verbose,
/// its storage id.
pub open spec fn store_url_entry(store: Store, bucket: Seq<char>, object_id: Seq<char>, u: Json, verbose: bool) -> bool {
    exists|s: Seq<char>| #[trigger] controlled_entry(u, s, Store::backend_label(store.backends()[0]), store.backends()[0].id@, verbose)
        && presigned_get_target(s) == (bucket, object_id)
}

/// How a listing shows the `i`-th selected segment of a flow: as the query
/// shows its document, with the store's signed download URL appended as its
/// own entry when the query lets it through and the address could be made.
pub open spec fn segment_shown_with_url(store: Store, bucket: Seq<char>, flow_id: Seq<char>, query: SegmentQuery, i: int, r: Json) -> bool {
    let m = selected(store.segs_of(flow_id), query);
    let wanted = store.segs_of(flow_id).len() > 0 && store.controlled_url_wanted(
        query.presigned,
        query.accept_get_urls,
        query.accept_storage_ids,
    );
    let seg = m[listed_position(m.len() as int, i, query.reverse_order)];
    exists|d: Json| #[trigger] shown_document(seg.document, d, query)
        && (d == r || (wanted && exists|u: Json| url_appended(d, r, u)
            && #[trigger] store_url_entry(store, bucket, seg.object_id@, u, query.verbose_storage)))
}

/// A flow's segments as a listing shows them, and the bounding union of
/// their ranges. When the query lets the store's own download URL through,
/// each document gets its object's signed address, unless that could not
/// be made for it.
pub fn segments_with_urls(store: &Store, s3: &S3Bucket, flow_id: &str, query: &SegmentQuery) -> (r: (Vec<Json>, TimeRange))
    ensures
        r.1 == union_of(seg_ranges(selected(store.segs_of(flow_id@), *query))),
        r.0@.len() == selected(store.segs_of(flow_id@), *query).len(),
        forall|i: int| #![trigger r.0@[i]] 0 <= i < r.0@.len() ==> segment_shown_with_url(*store, s3.bucket@, flow_id@, *query, i, r.0@[i]),
{
    let listing = store.get_segments(flow_id, query);
    let with_url = listing.include_controlled_url;
    let n = listing.documents.len();
    let ghost shown = listing.documents@;
    let backends = store.storage_backends();
    let mut out: Vec<Json> = Vec::new();
    let mut i: usize = 0;
    while i < n
        invariant
            i <= n,
            n == shown.len(),
            shown == listing.documents@,
            listing.object_ids@.len() == n,
            out@.len() == i,
            forall|j: int| 0 <= j < i ==> (shown[j] == #[trigger] out@[j] || (with_url && exists|u: Json| url_appended(shown[j], out@[j], u)
                && #[trigger] store_url_entry(*store, s3.bucket@, listing.object_ids@[j]@, u, query.verbose_storage))),
            with_url ==> backends@.len() > 0,
            backends@ == store.backends(),
        decreases n - i,
    {
        let d = listing.documents[i].copy();
        if with_url {
            match presigned_get_url(s3, listing.object_ids[i].as_str()) {
                Ok(u) => {
                    let b = &backends[0];
                    let label = match &b.label {
                        Some(l) => l.as_str(),
                        None => "s3",
                    };
                    let url = build_controlled_url(u.as_str(), label, b.id.as_str(), query.verbose_storage);
                    let ghost uv = url;
                    let ghost dv = d;
                    let nd = add_get_url(d, url);
                    assert(url_appended(dv, nd, uv));
                    assert(controlled_entry(uv, u@, Store::backend_label(store.backends()[0]), store.backends()[0].id@, query.verbose_storage));
                    assert(store_url_entry(*store, s3.bucket@, listing.object_ids@[i as int]@, uv, query.verbose_storage));
                    out.push(nd);
                },
                Err(_) => {
                    out.push(d);
                },
            }
        } else {
            out.push(d);
        }
        i = i + 1;
    }
    proof {
        let m = selected(store.segs_of(flow_id@), *query);
        let wanted = store.segs_of(flow_id@).len() > 0 && store.controlled_url_wanted(
            query.presigned,
            query.accept_get_urls,
            query.accept_storage_ids,
        );
        assert(with_url == wanted);
        assert forall|j: int| #![trigger out@[j]] 0 <= j < out@.len() implies segment_shown_with_url(*store, s3.bucket@, flow_id@, *query, j, out@[j]) by {
            assert(shown_document(m[listed_position(m.len() as int, j, query.reverse_order)].document, shown[j], *query));
            assert(listing.object_ids@[j]@ == m[listed_position(m.len() as int, j, query.reverse_order)].object_id@);
        }
        assert(with_url == (store.segs_of(flow_id@).len() > 0 && store.controlled_url_wanted(
            query.presigned,
            query.accept_get_urls,
            query.accept_storage_ids,
        )));
        assert(out@.len() == m.len());
        assert(listing.timerange == union_of(seg_ranges(m)));
    }
    (out, listing.timerange)
}

/// How many objects a storage request asks for: its object ids, or its
/// limit, or one.
pub open spec fn allocation_size(request: StorageRequest) -> int {
    match request.object_ids {
        Some(ids) => ids@.len() as int,
        None => match request.limit {
            Some(l) => l as int,
            None => 1,
        },
    }
}

/// The upload addresses of newly allocated media objects: the allocation
/// as the store makes it, each object with its signed upload address; an
/// address that cannot be made fails the whole request. A refused
/// allocation gives the store's error; otherwise only signing can fail.
#[verifier::loop_isolation(false)]
pub fn allocate_with_urls(store: &Store, s3: &S3Bucket, flow_id: &str, request: StorageRequest) -> (r: Result<Vec<AllocatedObject>, StoreError>)
    ensures
        !store.flow_writable(flow_id@, true) ==> r is Err,
        store.allocation_refused(flow_id@, request) ==> (r matches Err(e) && store.allocation_error(flow_id@, request, e)),
        !store.allocation_refused(flow_id@, request) ==> (r matches Err(e) ==> internal_with_prefix(e, "presign PUT error: "@)),
        !store.allocation_refused(flow_id@, request) && allocation_size(request) == 0 ==> r is Ok,
        r matches Ok(objs) ==> forall|i: int| 0 <= i < objs@.len() ==> presigned_put_target((#[trigger] objs@[i]).put_url@)
            == (s3.bucket@, objs@[i].object_id@),
        r matches Ok(objs) ==> forall|i: int| 0 <= i < objs@.len() ==> (#[trigger] objs@[i]).content_type == store.flows()[flow_id@].core.container,
        r matches Ok(objs) ==> match request.object_ids {
            Some(ids) => objs@.len() == ids@.len() && forall|i: int| 0 <= i < ids@.len() ==> (#[trigger] objs@[i]).object_id@ == ids@[i]@,
            None => objs@.len() == (match request.limit {
                Some(l) => l as int,
                None => 1,
            }),
        },
{
    let ghost ids = request.object_ids;
    let ghost limit = request.limit;
    let ghost req = request;
    let objs = match store.allocate_storage(flow_id, request) {
        Ok(o) => o,
        Err(e) => {
            return Err(e);
        },
    };
    let n = objs.len();
    let ghost before = objs@;
    let mut objs = objs;
    let mut out: Vec<AllocatedObject> = Vec::new();
    let mut i: usize = 0;
    while i < n
        invariant
            i <= n,
            n == before.len(),
            objs@ == before,
            !store.allocation_refused(flow_id@, req),
            out@.len() == i,
            forall|j: int| 0 <= j < i ==> (#[trigger] out@[j]).object_id == before[j].object_id
                && out@[j].content_type == before[j].content_type
                && presigned_put_target(out@[j].put_url@) == (s3.bucket@, out@[j].object_id@),
        decreases n - i,
    {
        let o = &objs[i];
        let put_url = match presigned_put_url(s3, o.object_id.as_str()) {
            Ok(u) => u,
            Err(e) => {
                return Err(e);
            },
        };
        out.push(AllocatedObject {
            object_id: o.object_id.clone(),
            put_url,
            content_type: crate::error::copy_opt_str(&o.content_type),
        });
        i = i + 1;
    }
    Ok(out)
}

/// A media object's report, with the store's signed download address
/// among its URLs when the query lets it through and it could be made.
pub fn object_with_urls(store: &Store, s3: &S3Bucket, object_id: &str, query: &ObjectQuery) -> (r: Result<ObjectInfo, StoreError>)
    ensures
        ({
            let refs = store.object_refs(store.segment_keys(), object_id@, query.flow_tag_filters);
            &&& (r is Err <==> refs.len() == 0)
            &&& (r matches Err(e) ==> (e matches StoreError::NotFound(m) && m@ == crate::store::not_found_message("Object"@, object_id@)))
            &&& (r matches Ok(info) ==> {
                let shown = store.shown_instances(object_id@, *query);
                let wanted = store.controlled_url_wanted(query.presigned, query.accept_get_urls, query.accept_storage_ids);
                &&& info.id@ == object_id@
                &&& crate::tags::string_views(info.referenced_by_flows@) == refs
                &&& crate::error::opt_str_view(info.first_referenced_by_flow) == Some(refs[0])
                &&& info.timerange == union_of(store.object_ranges_in(store.segment_keys(), object_id@))
                &&& forall|i: int| 0 <= i < shown.len() ==> instance_url_shown(shown[i], #[trigger] info.get_urls@[i], query.verbose_storage)
                &&& (info.get_urls@.len() == shown.len() || (wanted && info.get_urls@.len() == shown.len() + 1
                    && store_url_entry(*store, s3.bucket@, object_id@, info.get_urls@[shown.len() as int], query.verbose_storage)))
            })
        }),
{
    let wanted = store.controlled_url_included(query.presigned, &query.accept_get_urls, &query.accept_storage_ids);
    let url = if wanted {
        match presigned_get_url(s3, object_id) {
            Ok(u) => Some(u),
            Err(_) => None,
        }
    } else {
        None
    };
    let u = match &url {
        Some(u) => Some(u.as_str()),
        None => None,
    };
    let r = store.get_object(object_id, query, u);
    proof {
        if r is Ok && wanted && u is Some {
            let shown = store.shown_instances(object_id@, *query);
            let e = r->Ok_0.get_urls@[shown.len() as int];
            assert(controlled_entry(e, u->0@, Store::backend_label(store.backends()[0]), store.backends()[0].id@, query.verbose_storage));
            assert(store_url_entry(*store, s3.bucket@, object_id@, e, query.verbose_storage));
        }
    }
    r
}

} // verus!
