//! What the HTTP service decides about its requests, apart from the
//! transport: request bodies read as webhooks, instances, storage requests
//! and flow properties; query parameters checked; errors answered.
use vstd::prelude::*;
use crate::collection::opt_list_view;
use crate::docs::{members_are_tags, tags_from_json, tags_read_from};
use crate::error::{opt_str_view, StoreError};
use crate::flow::{opt_text, string_elements, string_elements_of, text_member};
use crate::json::{items_seq, json_bool, json_get, json_i64, json_u64, Items, Json};
use crate::object::InstanceRequest;
use crate::segment::StorageRequest;
use crate::sys::now_rfc3339;
use crate::tags::{string_views, Tags};
use crate::text::str_eq;
use crate::webhook::{is_valid_event_type, valid_event_type, StoredWebhook, WebhookStatus};
use crate::tags::{any_equal, split_on, split_ranges, split_strings, str_views};
use crate::text::{chars_of, find_char, first_index, has_prefix, is_first_index, lemma_first_index, nat_text,
    push_nat_text, range_has_prefix, string_of, string_of_range, trim_text, trimmed};
use crate::timerange::{spec_intersect, spec_overlaps, spec_parse_timerange, timerange_text, TimeRange};
use crate::json::{json_removed, json_text, json_with};
use crate::auth::{basic_auth_of, decode_basic_auth, AuthRequest};

verus! {

/// The kinds of error an answer reports.
#[derive(Debug, Clone, Copy, PartialEq, Eq, Structural)]
pub enum ErrorType {
    NotFound,
    Unauthorized,
    Forbidden,
    BadRequest,
    InternalServerError,
}

/// An error answer: its HTTP status, its kind, a summary and when it was made.
pub struct AppError {
    pub status: u16,
    pub error_type: ErrorType,
    pub summary: String,
    pub time: String,
}

impl AppError {
    fn new(status: u16, error_type: ErrorType, summary: String) -> (r: Self)
        ensures
            r.status == status,
            r.error_type == error_type,
            r.summary == summary,
    {
        AppError { status, error_type, summary, time: now_rfc3339() }
    }

    /// A 404 answer.
    pub fn not_found(summary: String) -> (r: Self)
        ensures
            r.status == 404 && r.error_type == ErrorType::NotFound && r.summary == summary,
    {
        Self::new(404, ErrorType::NotFound, summary)
    }

    /// A 401 answer.
    pub fn unauthorized(summary: String) -> (r: Self)
        ensures
            r.status == 401 && r.error_type == ErrorType::Unauthorized && r.summary == summary,
    {
        Self::new(401, ErrorType::Unauthorized, summary)
    }

    /// A 403 answer.
    pub fn forbidden(summary: String) -> (r: Self)
        ensures
            r.status == 403 && r.error_type == ErrorType::Forbidden && r.summary == summary,
    {
        Self::new(403, ErrorType::Forbidden, summary)
    }

    /// A 400 answer.
    pub fn bad_request(summary: String) -> (r: Self)
        ensures
            r.status == 400 && r.error_type == ErrorType::BadRequest && r.summary == summary,
    {
        Self::new(400, ErrorType::BadRequest, summary)
    }

    /// A 500 answer.
    pub fn internal(summary: String) -> (r: Self)
        ensures
            r.status == 500 && r.error_type == ErrorType::InternalServerError && r.summary == summary,
    {
        Self::new(500, ErrorType::InternalServerError, summary)
    }

    /// The answer to a store error: not found, forbidden for a read-only
    /// resource, bad request, or an internal error.
    pub fn from_store(e: StoreError) -> (r: Self)
        ensures
            match e {
                StoreError::NotFound(m) => r.status == 404 && r.error_type == ErrorType::NotFound && r.summary == m,
                StoreError::ReadOnly => r.status == 403 && r.error_type == ErrorType::Forbidden
                    && r.summary@ == "Resource is read-only"@,
                StoreError::BadRequest(m) => r.status == 400 && r.error_type == ErrorType::BadRequest && r.summary == m,
                StoreError::Internal(m) => r.status == 500 && r.error_type == ErrorType::InternalServerError
                    && r.summary == m,
            },
    {
        match e {
            StoreError::NotFound(m) => AppError::not_found(m),
            StoreError::ReadOnly => AppError::forbidden(String::from_str("Resource is read-only")),
            StoreError::BadRequest(m) => AppError::bad_request(m),
            StoreError::Internal(m) => AppError::internal(m),
        }
    }
}

/// The strings of an array member of a body; none if it is not an array.
pub open spec fn string_array_of(body: Json, field: Seq<char>) -> Option<Seq<Seq<char>>> {
    match json_get(body, field) {
        Some(Json::Array(l)) => Some(string_elements(*l)),
        _ => None,
    }
}

/// The strings of an array member of a body (other elements skipped); none
/// if the member is missing or not an array.
pub fn parse_string_array(body: &Json, field: &str) -> (r: Option<Vec<String>>)
    ensures
        opt_list_view(r) == string_array_of(*body, field@),
{
    match body.get(field) {
        Some(Json::Array(l)) => Some(string_elements_of(l)),
        _ => None,
    }
}

/// The status a webhook body asks for: `created` or `disabled`; when
/// missing, an error if it is required, else `created`.
pub open spec fn status_parsed(body: Json, required: bool) -> Result<WebhookStatus, Seq<char>> {
    match text_member(body, "status"@) {
        Some(s) => if s == "created"@ {
            Ok(WebhookStatus::Created)
        } else if s == "disabled"@ {
            Ok(WebhookStatus::Disabled)
        } else {
            Err("Client can only set status to 'created' or 'disabled', got '"@ + s + "'"@)
        },
        None => if required {
            Err("Missing required field: status"@)
        } else {
            Ok(WebhookStatus::Created)
        },
    }
}

/// A result whose message is taken by its text.
pub open spec fn outcome<T>(r: Result<T, String>) -> Result<T, Seq<char>> {
    match r {
        Ok(v) => Ok(v),
        Err(m) => Err(m@),
    }
}

/// Reads the status a webhook body asks for.
pub fn parse_status(body: &Json, required: bool) -> (r: Result<WebhookStatus, String>)
    ensures
        outcome(r) == status_parsed(*body, required),
{
    match body.get_str("status") {
        Some(s) => {
            if str_eq(s.as_str(), "created") {
                Ok(WebhookStatus::Created)
            } else if str_eq(s.as_str(), "disabled") {
                Ok(WebhookStatus::Disabled)
            } else {
                Err(String::from_str("Client can only set status to 'created' or 'disabled', got '").concat(s.as_str()).concat(
                    "'",
                ))
            }
        },
        None => {
            if required {
                Err(String::from_str("Missing required field: status"))
            } else {
                Ok(WebhookStatus::Created)
            }
        },
    }
}

/// The first event type that is not one of the known ones.
pub open spec fn first_invalid_event(events: Seq<Seq<char>>) -> Option<Seq<char>>
    decreases events.len(),
{
    if events.len() == 0 {
        None
    } else if !valid_event_type(events[0]) {
        Some(events[0])
    } else {
        first_invalid_event(events.drop_first())
    }
}

/// Checks that every event type is a known one, naming the first that is not.
pub fn validate_event_types(events: &[String]) -> (r: Result<(), String>)
    ensures
        match first_invalid_event(string_views(events@)) {
            Some(e) => r matches Err(m) && m@ == "Invalid event type: "@ + e,
            None => r is Ok,
        },
{
    let ghost s = string_views(events@);
    let mut i: usize = 0;
    assert(s.skip(0) =~= s);
    while i < events.len()
        invariant
            i <= events@.len(),
            s == string_views(events@),
            first_invalid_event(s) == first_invalid_event(s.skip(i as int)),
        decreases events@.len() - i,
    {
        assert(s.skip(i as int)[0] == events@[i as int]@);
        if !is_valid_event_type(events[i].as_str()) {
            return Err(String::from_str("Invalid event type: ").concat(events[i].as_str()));
        }
        assert(s.skip(i as int).drop_first() =~= s.skip(i + 1));
        i = i + 1;
    }
    assert(s.skip(i as int) =~= Seq::<Seq<char>>::empty());
    Ok(())
}

/// The tags a webhook body gives: an object of tag values; none otherwise.
pub open spec fn tags_field(body: Json, t: Option<Tags>) -> bool {
    match json_get(body, "tags"@) {
        Some(Json::Object(m)) => if members_are_tags(*m) {
            t matches Some(x) && tags_read_from(x@, *m)
        } else {
            t is None
        },
        _ => t is None,
    }
}

/// The optional fields of a webhook as a body gives them, with no error.
pub open spec fn webhook_fields_read(body: Json, w: StoredWebhook) -> bool {
    &&& opt_str_view(w.api_key_name) == text_member(body, "api_key_name"@)
    &&& opt_str_view(w.api_key_value) == text_member(body, "api_key_value"@)
    &&& opt_list_view(w.flow_ids) == string_array_of(body, "flow_ids"@)
    &&& opt_list_view(w.source_ids) == string_array_of(body, "source_ids"@)
    &&& opt_list_view(w.flow_collected_by_ids) == string_array_of(body, "flow_collected_by_ids"@)
    &&& opt_list_view(w.source_collected_by_ids) == string_array_of(body, "source_collected_by_ids"@)
    &&& opt_list_view(w.accept_get_urls) == string_array_of(body, "accept_get_urls"@)
    &&& opt_list_view(w.accept_storage_ids) == string_array_of(body, "accept_storage_ids"@)
    &&& w.presigned == json_bool(json_get(body, "presigned"@))
    &&& w.verbose_storage == json_bool(json_get(body, "verbose_storage"@))
    &&& tags_field(body, w.tags)
    &&& w.error is None
}

/// A webhook from a body's optional fields and the given status, URL and events.
pub fn extract_webhook_fields(body: &Json, status: WebhookStatus, url: String, events: Vec<String>) -> (r: StoredWebhook)
    ensures
        r.id@ == Seq::<char>::empty(),
        r.url == url,
        r.events == events,
        r.status == status,
        webhook_fields_read(*body, r),
{
    let tags = match body.get("tags") {
        Some(j) => tags_from_json(j),
        None => None,
    };
    StoredWebhook {
        id: String::new(),
        url,
        events,
        api_key_name: opt_text(body, "api_key_name"),
        api_key_value: opt_text(body, "api_key_value"),
        flow_ids: parse_string_array(body, "flow_ids"),
        source_ids: parse_string_array(body, "source_ids"),
        flow_collected_by_ids: parse_string_array(body, "flow_collected_by_ids"),
        source_collected_by_ids: parse_string_array(body, "source_collected_by_ids"),
        accept_get_urls: parse_string_array(body, "accept_get_urls"),
        accept_storage_ids: parse_string_array(body, "accept_storage_ids"),
        presigned: body.get_bool("presigned"),
        verbose_storage: body.get_bool("verbose_storage"),
        tags,
        status,
        error: None,
    }
}

/// The URL, events and status of a webhook body, or why it is refused:
/// a URL and an array of events are required, every event must be known,
/// and a status, if given, is `created` or `disabled`.
pub open spec fn webhook_parsed(body: Json) -> Result<(Seq<char>, Seq<Seq<char>>, WebhookStatus), Seq<char>> {
    match text_member(body, "url"@) {
        None => Err("Missing required field: url"@),
        Some(url) => match json_get(body, "events"@) {
            Some(Json::Array(l)) => match first_invalid_event(string_elements(*l)) {
                Some(e) => Err("Invalid event type: "@ + e),
                None => match status_parsed(body, false) {
                    Ok(st) => Ok((url, string_elements(*l), st)),
                    Err(m) => Err(m),
                },
            },
            _ => Err("Missing required field: events"@),
        },
    }
}

/// The URL, events and status of a webhook replacement body, or why it is
/// refused: a status is required first, then a URL and an array of events.
pub open spec fn webhook_update_parsed(body: Json) -> Result<(Seq<char>, Seq<Seq<char>>, WebhookStatus), Seq<char>> {
    match status_parsed(body, true) {
        Err(m) => Err(m),
        Ok(st) => match text_member(body, "url"@) {
            None => Err("Missing required field: url"@),
            Some(url) => match json_get(body, "events"@) {
                Some(Json::Array(l)) => match first_invalid_event(string_elements(*l)) {
                    Some(e) => Err("Invalid event type: "@ + e),
                    None => Ok((url, string_elements(*l), st)),
                },
                _ => Err("Missing required field: events"@),
            },
        },
    }
}

/// Whether a parsed body and the webhook made of it agree.
pub open spec fn webhook_made(body: Json, parsed: Result<(Seq<char>, Seq<Seq<char>>, WebhookStatus), Seq<char>>, r: Result<StoredWebhook, String>) -> bool {
    match parsed {
        Ok((url, evs, st)) => r matches Ok(w) && w.url@ == url && string_views(w.events@) == evs && w.status == st
            && webhook_fields_read(body, w),
        Err(m) => r matches Err(x) && x@ == m,
    }
}

/// A new webhook from a request body.
pub fn parse_webhook_from_body(body: &Json) -> (r: Result<StoredWebhook, String>)
    ensures
        webhook_made(*body, webhook_parsed(*body), r),
        r matches Ok(w) ==> w.id@ == Seq::<char>::empty(),
{
    let url = match body.get_str("url") {
        Some(u) => u.clone(),
        None => {
            return Err(String::from_str("Missing required field: url"));
        },
    };
    let events = match body.get("events") {
        Some(Json::Array(l)) => string_elements_of(l),
        _ => {
            return Err(String::from_str("Missing required field: events"));
        },
    };
    match validate_event_types(events.as_slice()) {
        Ok(()) => {},
        Err(m) => {
            return Err(m);
        },
    }
    let status = match parse_status(body, false) {
        Ok(s) => s,
        Err(m) => {
            return Err(m);
        },
    };
    Ok(extract_webhook_fields(body, status, url, events))
}

/// The replacement for webhook `id` from a request body.
pub fn parse_webhook_update(id: &str, body: &Json) -> (r: Result<StoredWebhook, String>)
    ensures
        webhook_made(*body, webhook_update_parsed(*body), r),
        r matches Ok(w) ==> w.id@ == id@,
{
    let status = match parse_status(body, true) {
        Ok(s) => s,
        Err(m) => {
            return Err(m);
        },
    };
    let url = match body.get_str("url") {
        Some(u) => u.clone(),
        None => {
            return Err(String::from_str("Missing required field: url"));
        },
    };
    let events = match body.get("events") {
        Some(Json::Array(l)) => string_elements_of(l),
        _ => {
            return Err(String::from_str("Missing required field: events"));
        },
    };
    match validate_event_types(events.as_slice()) {
        Ok(()) => {},
        Err(m) => {
            return Err(m);
        },
    }
    let mut w = extract_webhook_fields(body, status, url, events);
    w.id = id.to_owned();
    Ok(w)
}

/// How a body asks to register an object instance: a storage id asks for
/// a copy in that backend; else a URL and a label name a client's copy.
pub open spec fn instance_request_read(body: Json, r: Result<InstanceRequest, String>) -> bool {
    match text_member(body, "storage_id"@) {
        Some(sid) => r matches Ok(InstanceRequest::Controlled { storage_id }) && storage_id@ == sid,
        None => match (text_member(body, "url"@), text_member(body, "label"@)) {
            (Some(u), Some(l)) => r matches Ok(InstanceRequest::Uncontrolled { url, label }) && url@ == u && label@ == l,
            _ => r matches Err(m) && m@ == "Must provide either 'storage_id' or both 'url' and 'label'"@,
        },
    }
}

/// Reads an instance registration from a request body.
pub fn instance_request_from_body(body: &Json) -> (r: Result<InstanceRequest, String>)
    ensures
        instance_request_read(*body, r),
{
    match body.get_str("storage_id") {
        Some(sid) => Ok(InstanceRequest::Controlled { storage_id: sid.clone() }),
        None => match (body.get_str("url"), body.get_str("label")) {
            (Some(u), Some(l)) => Ok(InstanceRequest::Uncontrolled { url: u.clone(), label: l.clone() }),
            _ => Err(String::from_str("Must provide either 'storage_id' or both 'url' and 'label'")),
        },
    }
}

/// Checks a bit rate value: an integer within `i64` that is not negative.
pub fn check_bit_rate(property: &str, value: &Json) -> (r: Result<(), String>)
    ensures
        r is Ok <==> (json_i64(Some(*value)) matches Some(n) && n >= 0),
        r matches Err(m) ==> m@ == property@ + " must be a non-negative integer"@,
{
    let n = match value {
        Json::Number(t) => crate::json::integer_of_text(t.as_str()),
        _ => None,
    };
    match n {
        Some(n) => {
            if n >= 0 {
                return Ok(());
            }
        },
        None => {},
    }
    Err(String::from_str(property).concat(" must be a non-negative integer"))
}

/// Why an element of a flow collection is refused, if it is.
pub open spec fn collection_item_error(j: Json) -> Option<Seq<char>> {
    if !(j is Object) {
        Some("Each flow_collection item must be an object"@)
    } else if text_member(j, "id"@) is None {
        Some("Each flow_collection item must have a string id"@)
    } else if text_member(j, "role"@) is None {
        Some("Each flow_collection item must have a string role"@)
    } else {
        None
    }
}

/// Why the first refused element of a flow collection is refused.
pub open spec fn first_item_error(l: Items) -> Option<Seq<char>>
    decreases l,
{
    match l {
        Items::Nil => None,
        Items::Cons(v, rest) => match collection_item_error(v) {
            Some(e) => Some(e),
            None => first_item_error(*rest),
        },
    }
}

/// Why a flow collection value is refused: not an array, or an element
/// that is not an object with a string id and a string role.
pub open spec fn flow_collection_error(v: Json) -> Option<Seq<char>> {
    match v {
        Json::Array(l) => first_item_error(*l),
        _ => Some("flow_collection must be a JSON array"@),
    }
}

fn first_item_problem(l: &Items) -> (r: Option<String>)
    ensures
        opt_str_view(r) == first_item_error(*l),
    decreases l,
{
    match l {
        Items::Nil => None,
        Items::Cons(v, rest) => {
            if !v.is_object() {
                return Some(String::from_str("Each flow_collection item must be an object"));
            }
            if v.get_str("id").is_none() {
                return Some(String::from_str("Each flow_collection item must have a string id"));
            }
            if v.get_str("role").is_none() {
                return Some(String::from_str("Each flow_collection item must have a string role"));
            }
            first_item_problem(rest)
        },
    }
}

/// Checks a flow collection value before it is set.
pub fn validate_flow_collection(value: &Json) -> (r: Result<(), String>)
    ensures
        match flow_collection_error(*value) {
            Some(m) => r matches Err(x) && x@ == m,
            None => r is Ok,
        },
{
    match value {
        Json::Array(l) => match first_item_problem(l) {
            Some(m) => Err(m),
            None => Ok(()),
        },
        _ => Err(String::from_str("flow_collection must be a JSON array")),
    }
}

fn items_into_vec(l: Items) -> (r: Vec<Json>)
    ensures
        r@ == items_seq(l),
{
    let mut out: Vec<Json> = Vec::new();
    let mut cur = l;
    let ghost whole = items_seq(l);
    loop
        invariant
            whole == items_seq(l),
            out@ + items_seq(cur) == whole,
        decreases cur,
    {
        match cur {
            Items::Nil => {
                assert(out@ + items_seq(cur) =~= out@);
                return out;
            },
            Items::Cons(v, rest) => {
                let ghost before = out@;
                out.push(v);
                assert(out@ + items_seq(*rest) =~= before + items_seq(Items::Cons(v, rest)));
                cur = *rest;
            },
        }
    }
}

/// The segment documents of a post body: an array's elements, or a single
/// object; anything else is refused.
pub fn segment_documents(body: Json) -> (r: Result<Vec<Json>, String>)
    ensures
        match body {
            Json::Array(l) => r matches Ok(v) && v@ == items_seq(*l),
            Json::Object(_) => r matches Ok(v) && v@ == seq![body],
            _ => r matches Err(m) && m@ == "Body must be a JSON object or array"@,
        },
{
    match body {
        Json::Array(l) => Ok(items_into_vec(*l)),
        Json::Object(m) => {
            let mut v: Vec<Json> = Vec::new();
            v.push(Json::Object(m));
            Ok(v)
        },
        _ => Err(String::from_str("Body must be a JSON object or array")),
    }
}

/// A storage request from a body: a limit when it is a whole number within
/// `u64`, the string object ids of an array, and a string storage id.
pub fn storage_request_of_body(body: &Json) -> (r: StorageRequest)
    ensures
        match r.limit {
            Some(n) => json_u64(json_get(*body, "limit"@)) == Some(n as int),
            None => json_u64(json_get(*body, "limit"@)) is None,
        },
        opt_list_view(r.object_ids) == string_array_of(*body, "object_ids"@),
        opt_str_view(r.storage_id) == text_member(*body, "storage_id"@),
{
    StorageRequest {
        limit: body.get_u64("limit"),
        object_ids: parse_string_array(body, "object_ids"),
        storage_id: opt_text(body, "storage_id"),
    }
}

/// The key of a `key=value` query pair: what comes before the first `=`.
pub open spec fn query_key(pair: Seq<char>) -> Seq<char> {
    match first_index(pair, '=') {
        Some(i) => pair.take(i),
        None => pair,
    }
}

/// Query keys every route accepts: the access token and tag filters.
pub open spec fn key_always_allowed(k: Seq<char>) -> bool {
    ||| k == "access_token"@
    ||| has_prefix(k, "tag."@)
    ||| has_prefix(k, "tag_exists."@)
    ||| has_prefix(k, "flow_tag."@)
    ||| has_prefix(k, "flow_tag_exists."@)
}

/// A query key a route refuses: not empty, not always accepted, not one of its own.
pub open spec fn key_refused(k: Seq<char>, allowed: Seq<Seq<char>>) -> bool {
    k.len() > 0 && !key_always_allowed(k) && !allowed.contains(k)
}

/// The key of the first refused pair, if any.
pub open spec fn first_refused_key(pairs: Seq<Seq<char>>, allowed: Seq<Seq<char>>) -> Option<Seq<char>>
    decreases pairs.len(),
{
    if pairs.len() == 0 {
        None
    } else if key_refused(query_key(pairs[0]), allowed) {
        Some(query_key(pairs[0]))
    } else {
        first_refused_key(pairs.drop_first(), allowed)
    }
}

fn key_of_pair(pair: &str) -> (r: String)
    ensures
        r@ == query_key(pair@),
{
    let v = chars_of(pair);
    match find_char(&v, 0, '=') {
        Some(i) => {
            proof {
                assert(v@.skip(0) =~= pair@);
                lemma_first_index(pair@, '=', i as int);
            }
            string_of_range(&v, 0, i)
        },
        None => {
            proof {
                assert(!pair@.contains('='));
            }
            pair.to_owned()
        },
    }
}

fn has_literal_prefix(v: &Vec<char>, p: &str) -> (r: bool)
    ensures
        r == has_prefix(v@, p@),
{
    let pv = chars_of(p);
    assert(v@.subrange(0, v@.len() as int) =~= v@);
    range_has_prefix(v, 0, v.len(), &pv)
}

fn always_allowed(k: &str) -> (r: bool)
    ensures
        r == key_always_allowed(k@),
{
    let v = chars_of(k);
    str_eq(k, "access_token") || has_literal_prefix(&v, "tag.") || has_literal_prefix(&v, "tag_exists.")
        || has_literal_prefix(&v, "flow_tag.") || has_literal_prefix(&v, "flow_tag_exists.")
}

/// Checks a query's keys against those a route accepts; the first key it
/// refuses is named in a bad-request answer.
pub fn validate_query_params(query: Option<&str>, allowed: &[&str]) -> (r: Result<(), AppError>)
    ensures
        match query {
            None => r is Ok,
            Some(q) => match first_refused_key(split_on(q@, '&'), str_views(allowed@)) {
                Some(k) => r matches Err(e) && e.status == 400 && e.error_type == ErrorType::BadRequest
                    && e.summary@ == "Unknown query parameter: "@ + k,
                None => r is Ok,
            },
        },
{
    let q = match query {
        Some(q) => q,
        None => {
            return Ok(());
        },
    };
    let v = chars_of(q);
    let pairs = split_strings(&v, 0, v.len(), '&');
    let ghost ps = split_on(q@, '&');
    let ghost al = str_views(allowed@);
    assert(v@.subrange(0, v@.len() as int) =~= q@);
    let mut i: usize = 0;
    assert(ps.skip(0) =~= ps);
    while i < pairs.len()
        invariant
            i <= pairs@.len(),
            string_views(pairs@) == ps,
            ps == split_on(q@, '&'),
            query == Some(q),
            al == str_views(allowed@),
            first_refused_key(ps, al) == first_refused_key(ps.skip(i as int), al),
        decreases pairs@.len() - i,
    {
        assert(ps.skip(i as int)[0] == pairs@[i as int]@);
        let key = key_of_pair(pairs[i].as_str());
        let refused = !key.as_str().is_empty() && !always_allowed(key.as_str()) && !any_equal(key.as_str(), allowed);
        proof {
            assert(al.contains(key@) <==> (exists|j: int| 0 <= j < allowed@.len() && allowed@[j]@ == key@)) by {
                if al.contains(key@) {
                    let j = choose|j: int| 0 <= j < al.len() && al[j] == key@;
                    assert(allowed@[j]@ == key@);
                }
                if exists|j: int| 0 <= j < allowed@.len() && allowed@[j]@ == key@ {
                    let j = choose|j: int| 0 <= j < allowed@.len() && allowed@[j]@ == key@;
                    assert(al[j] == key@);
                }
            }
        }
        if refused {
            assert(key_refused(key@, al));
            assert(query_key(ps.skip(i as int)[0]) == key@);
            assert(first_refused_key(ps.skip(i as int), al) == Some(key@));
            return Err(AppError::bad_request(String::from_str("Unknown query parameter: ").concat(key.as_str())));
        }
        assert(ps.skip(i as int).drop_first() =~= ps.skip(i + 1));
        i = i + 1;
    }
    assert(ps.skip(i as int) =~= Seq::<Seq<char>>::empty());
    Ok(())
}

/// What a `timerange` query parameter gives: nothing when absent or empty,
/// else the range it names, or why it is refused.
pub fn parse_timerange_param(param: Option<&str>) -> (r: Result<Option<TimeRange>, AppError>)
    ensures
        match param {
            None => (r matches Ok(None)),
            Some(s) => if s@.len() == 0 {
                (r matches Ok(None))
            } else {
                match spec_parse_timerange(s@) {
                    Some(tr) => (r matches Ok(Some(x)) && x == tr),
                    None => (r matches Err(e) && e.status == 400 && e.error_type == ErrorType::BadRequest
                        && e.summary@ == "Invalid timerange: "@ + s@),
                }
            },
        },
{
    match param {
        None => Ok(None),
        Some(s) => {
            if s.is_empty() {
                proof {
                    assert(s@.len() == 0);
                }
                return Ok(None);
            }
            match TimeRange::parse(s) {
                Ok(tr) => Ok(Some(tr)),
                Err(_) => Err(AppError::bad_request(String::from_str("Invalid timerange: ").concat(s))),
            }
        },
    }
}

/// The range a flow shows when asked to include it, clipped by a query
/// range that is not eternity: the overlap with the flow's own range, or
/// `()` when they do not overlap; nothing when there is no clipping.
pub open spec fn clipped_text(doc: Json, q: Option<TimeRange>) -> Option<Seq<char>> {
    match (text_member(doc, "timerange"@), q) {
        (Some(fts), Some(qtr)) => if qtr == (TimeRange::Range { start: None, end: None }) {
            None
        } else {
            match spec_parse_timerange(fts) {
                Some(ftr) => if spec_overlaps(ftr, qtr) {
                    Some(timerange_text(spec_intersect(ftr, qtr)))
                } else {
                    Some("()"@)
                },
                None => None,
            }
        },
        _ => None,
    }
}

/// How a flow document is shown: without its range unless asked; with it,
/// clipped when a query range clips it, and `()` when it has none.
pub open spec fn flow_shown(doc: Json, include_timerange: bool, q: Option<TimeRange>, r: Json) -> bool {
    if !include_timerange {
        r == json_removed(doc, "timerange"@)
    } else if !(doc is Object) {
        r == doc
    } else {
        let t = match clipped_text(doc, q) {
            Some(t) => Some(t),
            None => if json_get(doc, "timerange"@) is None {
                Some("()"@)
            } else {
                None
            },
        };
        match t {
            Some(t) => {
                &&& r is Object
                &&& text_member(r, "timerange"@) == Some(t)
                &&& forall|k: Seq<char>| k != "timerange"@ ==> #[trigger] json_get(r, k) == json_get(doc, k)
            },
            None => r == doc,
        }
    }
}

/// A flow document as a single-flow read shows it.
pub fn flow_view(doc: Json, include_timerange: bool, query_timerange: &Option<TimeRange>) -> (r: Json)
    ensures
        flow_shown(doc, include_timerange, *query_timerange, r),
{
    let mut d = doc;
    if !include_timerange {
        d.remove("timerange");
        return d;
    }
    if !d.is_object() {
        return d;
    }
    let mut clipped: Option<String> = None;
    match (d.get_str("timerange"), query_timerange) {
        (Some(fts), Some(qtr)) => {
            if !qtr.is_eternity() {
                match TimeRange::parse(fts.as_str()) {
                    Ok(ftr) => {
                        if ftr.overlaps(qtr) {
                            clipped = Some(ftr.intersect(qtr).to_string());
                        } else {
                            clipped = Some(String::from_str("()"));
                        }
                    },
                    Err(_) => {},
                }
            }
        },
        _ => {},
    }
    proof {
        reveal_strlit("()");
    }
    assert(opt_str_view(clipped) == clipped_text(doc, *query_timerange));
    let value = match clipped {
        Some(c) => Some(c),
        None => {
            if d.get("timerange").is_none() {
                Some(String::from_str("()"))
            } else {
                None
            }
        },
    };
    match value {
        Some(t) => {
            let ghost before = d;
            let ghost tv = t@;
            let name = String::from_str("timerange");
            let ghost nm = name;
            d.insert(name, Json::Str(t));
            proof {
                assert forall|k: Seq<char>| k != "timerange"@ implies #[trigger] json_get(d, k) == json_get(doc, k) by {
                    crate::json::lemma_get_with(before, nm, Json::Str(t), k);
                }
                crate::json::lemma_get_with(before, nm, Json::Str(t), "timerange"@);
            }
            d
        },
        None => d,
    }
}

/// The pieces of a comma-separated list, each trimmed.
pub open spec fn trimmed_pieces(s: Seq<char>) -> Seq<Seq<char>> {
    split_on(s, ',').map_values(|p: Seq<char>| trimmed(p))
}

fn trimmed_list(s: &str) -> (r: Vec<String>)
    ensures
        string_views(r@) == trimmed_pieces(s@),
{
    let v = chars_of(s);
    let pieces = split_strings(&v, 0, v.len(), ',');
    assert(v@.subrange(0, v@.len() as int) =~= s@);
    let ghost ps = split_on(s@, ',');
    let mut out: Vec<String> = Vec::new();
    let mut i: usize = 0;
    while i < pieces.len()
        invariant
            i <= pieces@.len(),
            string_views(pieces@) == ps,
            ps == split_on(s@, ','),
            out@.len() == i,
            forall|j: int| 0 <= j < i ==> (#[trigger] out@[j])@ == trimmed(ps[j]),
        decreases pieces@.len() - i,
    {
        assert(pieces@[i as int]@ == ps[i as int]);
        out.push(trim_text(pieces[i].as_str()));
        i = i + 1;
    }
    assert(string_views(out@) =~= trimmed_pieces(s@));
    out
}

/// The labels an `accept_get_urls` parameter lists: none when it is
/// empty, else its comma-separated pieces, trimmed.
pub fn labels_param(param: Option<&str>) -> (r: Option<Vec<String>>)
    ensures
        match param {
            None => r is None,
            Some(s) => (r matches Some(v) && string_views(v@) == (if s@.len() == 0 {
                Seq::<Seq<char>>::empty()
            } else {
                trimmed_pieces(s@)
            })),
        },
{
    match param {
        None => None,
        Some(s) => {
            if s.is_empty() {
                let v: Vec<String> = Vec::new();
                assert(string_views(v@) =~= Seq::<Seq<char>>::empty());
                Some(v)
            } else {
                Some(trimmed_list(s))
            }
        },
    }
}

/// The storage ids an `accept_storage_ids` parameter lists: no filter when
/// it is absent or empty, else its comma-separated pieces, trimmed.
pub fn storage_ids_param(param: Option<&str>) -> (r: Option<Vec<String>>)
    ensures
        match param {
            Some(s) => if s@.len() == 0 {
                r is None
            } else {
                (r matches Some(v) && string_views(v@) == trimmed_pieces(s@))
            },
            None => r is None,
        },
{
    match param {
        None => None,
        Some(s) => {
            if s.is_empty() {
                None
            } else {
                Some(trimmed_list(s))
            }
        },
    }
}

/// The pairs of a query a next-page link keeps: not empty, and not a
/// `page` or `limit` pair.
pub open spec fn kept_query_parts(parts: Seq<Seq<char>>) -> Seq<Seq<char>>
    decreases parts.len(),
{
    if parts.len() == 0 {
        Seq::empty()
    } else {
        let rest = kept_query_parts(parts.drop_last());
        let p = parts.last();
        if p.len() > 0 && !has_prefix(p, "page="@) && !has_prefix(p, "limit="@) {
            rest.push(p)
        } else {
            rest
        }
    }
}

/// Texts joined with a separator between each two.
pub open spec fn joined(parts: Seq<Seq<char>>, sep: char) -> Seq<char>
    decreases parts.len(),
{
    if parts.len() == 0 {
        Seq::empty()
    } else if parts.len() == 1 {
        parts[0]
    } else {
        joined(parts.drop_last(), sep).push(sep) + parts.last()
    }
}

/// The `Link` header of a listing page with more after it: the same
/// address with the query's other pairs kept, then the next page's key and
/// the page size.
pub open spec fn next_link_text(
    scheme: Seq<char>,
    authority: Seq<char>,
    path: Seq<char>,
    query: Seq<char>,
    next_key: Seq<char>,
    limit: nat,
) -> Seq<char> {
    let parts = kept_query_parts(split_on(query, '&')).push("page="@ + next_key).push("limit="@ + nat_text(limit));
    "<"@ + scheme + "://"@ + authority + path + "?"@ + joined(parts, '&') + ">; rel=\"next\""@
}

fn push_str(out: &mut Vec<char>, s: &str)
    ensures
        final(out)@ == old(out)@ + s@,
{
    let v = chars_of(s);
    let mut i: usize = 0;
    while i < v.len()
        invariant
            i <= v@.len(),
            out@ == old(out)@ + v@.take(i as int),
        decreases v@.len() - i,
    {
        out.push(v[i]);
        i = i + 1;
        assert(out@ =~= old(out)@ + v@.take(i as int));
    }
    assert(v@.take(v@.len() as int) =~= v@);
}

fn push_part(out: &mut Vec<char>, parts: Ghost<Seq<Seq<char>>>, has_parts: bool, part: &str)
    requires
        old(out)@ == joined(parts@, '&'),
        has_parts == (parts@.len() > 0),
    ensures
        final(out)@ == joined(parts@.push(part@), '&'),
{
    let ghost ps = parts@;
    assert(ps.push(part@).drop_last() =~= ps);
    if has_parts {
        out.push('&');
    }
    push_str(out, part);
    proof {
        if ps.len() == 0 {
            assert(old(out)@ =~= Seq::<char>::empty());
            assert(out@ =~= part@);
        }
    }
}

/// The `Link` header pointing at the next page of a listing.
pub fn next_page_link(scheme: &str, authority: &str, path: &str, query: Option<&str>, next_key: &str, limit: usize) -> (r: String)
    requires
        limit <= u128::MAX,
    ensures
        r@ == next_link_text(scheme@, authority@, path@, match query {
            Some(q) => q@,
            None => Seq::empty(),
        }, next_key@, limit as nat),
{
    let q = match query {
        Some(q) => q,
        None => "",
    };
    proof {
        reveal_strlit("");
    }
    let ghost qv: Seq<char> = match query {
        Some(x) => x@,
        None => Seq::empty(),
    };
    assert(q@ == qv);
    let v = chars_of(q);
    let pieces = split_strings(&v, 0, v.len(), '&');
    assert(v@.subrange(0, v@.len() as int) =~= q@);
    let ghost ps = split_on(q@, '&');
    let mut qs: Vec<char> = Vec::new();
    let mut any = false;
    let mut i: usize = 0;
    while i < pieces.len()
        invariant
            i <= pieces@.len(),
            string_views(pieces@) == ps,
            qs@ == joined(kept_query_parts(ps.take(i as int)), '&'),
            any == (kept_query_parts(ps.take(i as int)).len() > 0),
        decreases pieces@.len() - i,
    {
        let p = pieces[i].as_str();
        assert(p@ == ps[i as int]);
        assert(ps.take(i + 1).drop_last() =~= ps.take(i as int));
        let pv = chars_of(p);
        if !p.is_empty() && !has_literal_prefix(&pv, "page=") && !has_literal_prefix(&pv, "limit=") {
            push_part(&mut qs, Ghost(kept_query_parts(ps.take(i as int))), any, p);
            any = true;
        }
        i = i + 1;
    }
    assert(ps.take(pieces@.len() as int) =~= ps);
    let ghost kept = kept_query_parts(ps);
    let page = String::from_str("page=").concat(next_key);
    push_part(&mut qs, Ghost(kept), any, page.as_str());
    let mut lim: Vec<char> = Vec::new();
    push_str(&mut lim, "limit=");
    push_nat_text(limit as u128, &mut lim);
    let limit_part = string_of(lim.as_slice());
    push_part(&mut qs, Ghost(kept.push(page@)), true, limit_part.as_str());
    let mut out: Vec<char> = Vec::new();
    push_str(&mut out, "<");
    push_str(&mut out, scheme);
    push_str(&mut out, "://");
    push_str(&mut out, authority);
    push_str(&mut out, path);
    push_str(&mut out, "?");
    let ghost qsv = qs@;
    let mut k: usize = 0;
    let ghost before = out@;
    while k < qs.len()
        invariant
            k <= qs@.len(),
            out@ == before + qs@.take(k as int),
        decreases qs@.len() - k,
    {
        out.push(qs[k]);
        k = k + 1;
        assert(out@ =~= before + qs@.take(k as int));
    }
    assert(qs@.take(qs@.len() as int) =~= qs@);
    push_str(&mut out, ">; rel=\"next\"");
    assert(out@ =~= next_link_text(scheme@, authority@, path@, qv, next_key@, limit as nat));
    string_of(out.as_slice())
}

/// A request's claims as plain values: the kind (Basic, Bearer or API
/// key) and its one or two texts.
pub open spec fn claim_view(a: AuthRequest) -> (nat, Seq<char>, Seq<char>) {
    match a {
        AuthRequest::Basic { user, pass } => (0, user@, pass@),
        AuthRequest::Bearer { token } => (1, token@, Seq::empty()),
        AuthRequest::ApiKey { key } => (2, key@, Seq::empty()),
    }
}

/// The claims a request makes, in order: Basic credentials that decode,
/// a Bearer token, and an `access_token` query parameter.
pub open spec fn claims_of(authorization: Option<Seq<char>>, access_token: Option<Seq<char>>) -> Seq<(nat, Seq<char>, Seq<char>)> {
    let basic: Seq<(nat, Seq<char>, Seq<char>)> = match authorization {
        Some(h) => if has_prefix(h, "Basic "@) {
            match basic_auth_of(h.skip(6)) {
                Some((u, p)) => seq![(0nat, u, p)],
                None => Seq::empty(),
            }
        } else {
            Seq::empty()
        },
        None => Seq::empty(),
    };
    let bearer: Seq<(nat, Seq<char>, Seq<char>)> = match authorization {
        Some(h) => if has_prefix(h, "Bearer "@) {
            seq![(1nat, h.skip(7), Seq::<char>::empty())]
        } else {
            Seq::empty()
        },
        None => Seq::empty(),
    };
    let key: Seq<(nat, Seq<char>, Seq<char>)> = match access_token {
        Some(k) => seq![(2nat, k, Seq::<char>::empty())],
        None => Seq::empty(),
    };
    basic + bearer + key
}

/// The claims of a request, from its `Authorization` header and its
/// `access_token` query parameter; any one of them may authenticate it.
pub fn extract_auth_requests(authorization: Option<&str>, access_token: Option<&str>) -> (r: Vec<AuthRequest>)
    ensures
        r@.map_values(|a: AuthRequest| claim_view(a)) == claims_of(
            match authorization {
                Some(h) => Some(h@),
                None => None,
            },
            match access_token {
                Some(k) => Some(k@),
                None => None,
            },
        ),
{
    proof {
        reveal_strlit("Basic ");
        reveal_strlit("Bearer ");
    }
    let mut out: Vec<AuthRequest> = Vec::new();
    let ghost mut expected: Seq<(nat, Seq<char>, Seq<char>)> = Seq::empty();
    match authorization {
        Some(h) => {
            let v = chars_of(h);
            if has_literal_prefix(&v, "Basic ") {
                let rest = string_of_range(&v, 6, v.len());
                assert(rest@ =~= h@.skip(6));
                match decode_basic_auth(rest.as_str()) {
                    Some((user, pass)) => {
                        out.push(AuthRequest::Basic { user, pass });
                    },
                    None => {},
                }
            }
            if has_literal_prefix(&v, "Bearer ") {
                let token = string_of_range(&v, 7, v.len());
                assert(token@ =~= h@.skip(7));
                out.push(AuthRequest::Bearer { token });
            }
        },
        None => {},
    }
    match access_token {
        Some(k) => {
            out.push(AuthRequest::ApiKey { key: k.to_owned() });
        },
        None => {},
    }
    let ghost got = out@.map_values(|a: AuthRequest| claim_view(a));
    assert(got =~= claims_of(
        match authorization {
            Some(h) => Some(h@),
            None => None,
        },
        match access_token {
            Some(k) => Some(k@),
            None => None,
        },
    ));
    out
}

/// A text without the slashes it ends with.
pub open spec fn without_trailing_slashes(s: Seq<char>) -> Seq<char>
    decreases s.len(),
{
    if s.len() > 0 && s.last() == '/' {
        without_trailing_slashes(s.drop_last())
    } else {
        s
    }
}

/// The base address of the authentication service, without trailing slashes.
pub fn auth_base_url(url: &str) -> (r: String)
    ensures
        r@ == without_trailing_slashes(url@),
{
    let v = chars_of(url);
    let mut n = v.len();
    assert(v@.take(n as int) =~= v@);
    while n > 0 && v[n - 1] == '/'
        invariant
            n <= v@.len(),
            v@ == url@,
            without_trailing_slashes(url@) == without_trailing_slashes(v@.take(n as int)),
        decreases n,
    {
        assert(v@.take(n - 1) =~= v@.take(n as int).drop_last());
        n = n - 1;
    }
    assert(v@.subrange(0, n as int) =~= v@.take(n as int));
    string_of_range(&v, 0, n)
}

/// A flow body for `PUT /flows/{flowId}`: an `id` it gives must be the
/// path's; a body without a string `id` gets the path's.
pub fn flow_body_for_path(path_id: &str, body: Json) -> (r: Result<Json, String>)
    requires
        text_member(body, "id"@) is Some || body is Object,
    ensures
        match text_member(body, "id"@) {
            Some(id) => if id == path_id@ {
                (r matches Ok(b) && b == body)
            } else {
                (r matches Err(m) && m@ == "Body id must match path flowId"@)
            },
            None => (r matches Ok(b) && b is Object && text_member(b, "id"@) == Some(path_id@)
                && forall|k: Seq<char>| k != "id"@ ==> #[trigger] json_get(b, k) == json_get(body, k)),
        },
{
    match body.get_str("id") {
        Some(id) => {
            if str_eq(id.as_str(), path_id) {
                return Ok(body);
            }
            Err(String::from_str("Body id must match path flowId"))
        },
        None => {
            let mut b = body;
            let ghost before = b;
            let name = String::from_str("id");
            let ghost nm = name;
            let v = Json::Str(path_id.to_owned());
            let ghost vv = v;
            b.insert(name, v);
            proof {
                assert forall|k: Seq<char>| k != "id"@ implies #[trigger] json_get(b, k) == json_get(body, k) by {
                    crate::json::lemma_get_with(before, nm, vv, k);
                }
                crate::json::lemma_get_with(before, nm, vv, "id"@);
            }
            Ok(b)
        },
    }
}

} // verus!
