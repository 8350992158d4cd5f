use tams::api::{
    check_bit_rate, flow_view, instance_request_from_body, labels_param, parse_status, parse_string_array,
    parse_timerange_param, parse_webhook_from_body, parse_webhook_update, segment_documents, storage_ids_param,
    storage_request_of_body, validate_event_types, validate_flow_collection, validate_query_params, AppError,
    ErrorType,
};
use tams::error::StoreError;
use tams::json::{Items, Json, Members};
use tams::object::InstanceRequest;
use tams::timerange::TimeRange;
use tams::webhook::WebhookStatus;

fn from_value(v: &serde_json::Value) -> Json {
    match v {
        serde_json::Value::Null => Json::Null,
        serde_json::Value::Bool(b) => Json::Bool(*b),
        serde_json::Value::Number(n) => Json::Number(n.to_string()),
        serde_json::Value::String(s) => Json::Str(s.clone()),
        serde_json::Value::Array(a) => {
            let mut items = Items::Nil;
            for x in a.iter().rev() {
                items = Items::Cons(from_value(x), Box::new(items));
            }
            Json::Array(Box::new(items))
        }
        serde_json::Value::Object(m) => {
            let pairs: Vec<(&String, &serde_json::Value)> = m.iter().collect();
            let mut members = Members::Nil;
            for (k, x) in pairs.into_iter().rev() {
                members = Members::Cons(k.clone(), from_value(x), Box::new(members));
            }
            Json::Object(Box::new(members))
        }
    }
}

fn body(text: &str) -> Json {
    from_value(&serde_json::from_str(text).unwrap())
}

#[test]
fn store_errors_answer_with_status() {
    let e = AppError::from_store(StoreError::NotFound("Flow x not found".into()));
    assert_eq!((e.status, e.error_type, e.summary.as_str()), (404, ErrorType::NotFound, "Flow x not found"));
    let e = AppError::from_store(StoreError::ReadOnly);
    assert_eq!((e.status, e.error_type, e.summary.as_str()), (403, ErrorType::Forbidden, "Resource is read-only"));
    let e = AppError::from_store(StoreError::BadRequest("bad".into()));
    assert_eq!((e.status, e.error_type), (400, ErrorType::BadRequest));
    let e = AppError::from_store(StoreError::Internal("boom".into()));
    assert_eq!((e.status, e.error_type), (500, ErrorType::InternalServerError));
    assert_eq!(AppError::unauthorized("no".into()).status, 401);
}

#[test]
fn query_params_checked_against_route() {
    assert!(validate_query_params(None, &["limit"]).is_ok());
    assert!(validate_query_params(Some("limit=1&page=x&tag.genre=news&access_token=k&&"), &["limit", "page"]).is_ok());
    let e = validate_query_params(Some("limit=1&bogus=2&worse=3"), &["limit"]).err().unwrap();
    assert_eq!(e.status, 400);
    assert_eq!(e.summary, "Unknown query parameter: bogus");
    assert!(validate_query_params(Some("flow_tag_exists.x=true"), &[]).is_ok());
}

#[test]
fn webhook_status_from_body() {
    assert_eq!(parse_status(&body(r#"{"status": "disabled"}"#), true).ok(), Some(WebhookStatus::Disabled));
    assert_eq!(parse_status(&body(r#"{}"#), false).ok(), Some(WebhookStatus::Created));
    assert_eq!(parse_status(&body(r#"{}"#), true).err().unwrap(), "Missing required field: status");
    assert_eq!(
        parse_status(&body(r#"{"status": "started"}"#), false).err().unwrap(),
        "Client can only set status to 'created' or 'disabled', got 'started'"
    );
}

#[test]
fn event_types_validated() {
    assert!(validate_event_types(&["flows/created".to_string()]).is_ok());
    assert_eq!(
        validate_event_types(&["flows/created".to_string(), "nope".to_string(), "bad".to_string()]).err().unwrap(),
        "Invalid event type: nope"
    );
}

#[test]
fn webhook_from_post_body() {
    let b = body(
        r#"{"url": "http://example.com/hook", "events": ["flows/created", 3, "flows/updated"],
            "api_key_name": "X-Key", "flow_ids": ["f1"], "presigned": true, "tags": {"a": "b"}}"#,
    );
    let w = parse_webhook_from_body(&b).ok().unwrap();
    assert_eq!(w.id, "");
    assert_eq!(w.url, "http://example.com/hook");
    assert_eq!(w.events, vec!["flows/created".to_string(), "flows/updated".to_string()]);
    assert_eq!(w.status, WebhookStatus::Created);
    assert_eq!(w.api_key_name.as_deref(), Some("X-Key"));
    assert_eq!(w.flow_ids, Some(vec!["f1".to_string()]));
    assert_eq!(w.presigned, Some(true));
    assert_eq!(w.tags.unwrap().len(), 1);
    assert_eq!(parse_webhook_from_body(&body(r#"{"events": []}"#)).err().unwrap(), "Missing required field: url");
    assert_eq!(parse_webhook_from_body(&body(r#"{"url": "u"}"#)).err().unwrap(), "Missing required field: events");
    assert_eq!(
        parse_webhook_from_body(&body(r#"{"url": "u", "events": ["x"]}"#)).err().unwrap(),
        "Invalid event type: x"
    );
}

#[test]
fn webhook_from_put_body() {
    assert_eq!(
        parse_webhook_update("w1", &body(r#"{"url": "u", "events": []}"#)).err().unwrap(),
        "Missing required field: status"
    );
    let w = parse_webhook_update("w1", &body(r#"{"url": "u", "events": [], "status": "disabled"}"#)).ok().unwrap();
    assert_eq!(w.id, "w1");
    assert_eq!(w.status, WebhookStatus::Disabled);
}

#[test]
fn string_arrays_skip_other_values() {
    let b = body(r#"{"ids": ["a", 1, "b", null], "other": "x"}"#);
    assert_eq!(parse_string_array(&b, "ids"), Some(vec!["a".to_string(), "b".to_string()]));
    assert_eq!(parse_string_array(&b, "other"), None);
    assert_eq!(parse_string_array(&b, "missing"), None);
}

#[test]
fn instance_requests_from_body() {
    assert!(matches!(
        instance_request_from_body(&body(r#"{"storage_id": "s1", "url": "u", "label": "l"}"#)),
        Ok(InstanceRequest::Controlled { storage_id }) if storage_id == "s1"
    ));
    assert!(matches!(
        instance_request_from_body(&body(r#"{"url": "u", "label": "l"}"#)),
        Ok(InstanceRequest::Uncontrolled { url, label }) if url == "u" && label == "l"
    ));
    assert_eq!(
        instance_request_from_body(&body(r#"{"url": "u"}"#)).err().unwrap(),
        "Must provide either 'storage_id' or both 'url' and 'label'"
    );
}

#[test]
fn bit_rates_must_be_non_negative_integers() {
    assert!(check_bit_rate("max_bit_rate", &body("5000")).is_ok());
    assert!(check_bit_rate("max_bit_rate", &body("0")).is_ok());
    assert_eq!(check_bit_rate("max_bit_rate", &body("-1")).err().unwrap(), "max_bit_rate must be a non-negative integer");
    assert_eq!(check_bit_rate("avg_bit_rate", &body("1.5")).err().unwrap(), "avg_bit_rate must be a non-negative integer");
    assert!(check_bit_rate("avg_bit_rate", &body(r#""7""#)).is_err());
}

#[test]
fn flow_collection_values_checked() {
    assert!(validate_flow_collection(&body(r#"[{"id": "a", "role": "video"}]"#)).is_ok());
    assert_eq!(validate_flow_collection(&body(r#"{}"#)).err().unwrap(), "flow_collection must be a JSON array");
    assert_eq!(
        validate_flow_collection(&body(r#"[{"id": "a", "role": "video"}, 3]"#)).err().unwrap(),
        "Each flow_collection item must be an object"
    );
    assert_eq!(
        validate_flow_collection(&body(r#"[{"role": "video"}]"#)).err().unwrap(),
        "Each flow_collection item must have a string id"
    );
    assert_eq!(
        validate_flow_collection(&body(r#"[{"id": "a"}]"#)).err().unwrap(),
        "Each flow_collection item must have a string role"
    );
}

#[test]
fn segment_post_bodies() {
    assert_eq!(segment_documents(body(r#"[{"a": 1}, {"b": 2}]"#)).ok().unwrap().len(), 2);
    assert_eq!(segment_documents(body(r#"{"a": 1}"#)).ok().unwrap().len(), 1);
    assert_eq!(segment_documents(body("3")).err().unwrap(), "Body must be a JSON object or array");
}

#[test]
fn storage_requests_from_body() {
    let r = storage_request_of_body(&body(r#"{"limit": 3, "object_ids": ["a"], "storage_id": "s"}"#));
    assert_eq!(r.limit, Some(3));
    assert_eq!(r.object_ids, Some(vec!["a".to_string()]));
    assert_eq!(r.storage_id.as_deref(), Some("s"));
    let r = storage_request_of_body(&body(r#"{"limit": -3}"#));
    assert_eq!(r.limit, None);
}

#[test]
fn timerange_params() {
    assert!(matches!(parse_timerange_param(None), Ok(None)));
    assert!(matches!(parse_timerange_param(Some("")), Ok(None)));
    assert_eq!(parse_timerange_param(Some("[0:0_1:0)")).ok().unwrap().unwrap().to_string(), "[0:0_1:0)");
    let e = parse_timerange_param(Some("garbage")).err().unwrap();
    assert_eq!(e.summary, "Invalid timerange: garbage");
}

#[test]
fn flow_view_clips_and_hides_ranges() {
    let d = body(r#"{"id": "f", "timerange": "[0:0_10:0)"}"#);
    let hidden = flow_view(d, false, &None);
    assert!(hidden.get("timerange").is_none());
    let d = body(r#"{"id": "f", "timerange": "[0:0_10:0)"}"#);
    let q = Some(TimeRange::parse("[5:0_20:0)").ok().unwrap());
    assert_eq!(flow_view(d, true, &q).get_str("timerange").unwrap(), "[5:0_10:0)");
    let d = body(r#"{"id": "f", "timerange": "[0:0_10:0)"}"#);
    let far = Some(TimeRange::parse("[50:0_60:0)").ok().unwrap());
    assert_eq!(flow_view(d, true, &far).get_str("timerange").unwrap(), "()");
    let d = body(r#"{"id": "f"}"#);
    assert_eq!(flow_view(d, true, &None).get_str("timerange").unwrap(), "()");
    let d = body(r#"{"id": "f", "timerange": "[0:0_10:0)"}"#);
    assert_eq!(flow_view(d, true, &None).get_str("timerange").unwrap(), "[0:0_10:0)");
}

#[test]
fn label_and_storage_id_lists() {
    assert_eq!(labels_param(Some("a, b ,c")), Some(vec!["a".to_string(), "b".to_string(), "c".to_string()]));
    assert_eq!(labels_param(Some("")), Some(vec![]));
    assert_eq!(labels_param(None), None);
    assert_eq!(storage_ids_param(Some("")), None);
    assert_eq!(storage_ids_param(Some(" x")), Some(vec!["x".to_string()]));
}

#[test]
fn flow_body_takes_path_id() {
    let b = tams::api::flow_body_for_path("f1", body(r#"{"format": "x"}"#)).ok().unwrap();
    assert_eq!(b.get_str("id").unwrap(), "f1");
    assert_eq!(b.get_str("format").unwrap(), "x");
    let same = tams::api::flow_body_for_path("f1", body(r#"{"id": "f1"}"#)).ok().unwrap();
    assert_eq!(same.get_str("id").unwrap(), "f1");
    assert_eq!(
        tams::api::flow_body_for_path("f1", body(r#"{"id": "f2"}"#)).err().unwrap(),
        "Body id must match path flowId"
    );
}

#[test]
fn labels_trim_unicode_whitespace() {
    assert_eq!(labels_param(Some("\tcdn\u{3000},\u{a0}edge ")), Some(vec!["cdn".to_string(), "edge".to_string()]));
}

#[test]
fn trim_keeps_inner_whitespace() {
    assert_eq!(labels_param(Some("  a b  ,\u{2003}")), Some(vec!["a b".to_string(), "".to_string()]));
}
