use tams::error::StoreError;
use tams::json::{Items, Json, Members};
use tams::webhook::{
    check_status_transition, is_valid_event_type, next_status_after_delivery, normalize_initial_status,
    webhook_matches_event, StoreEvent, StoredWebhook, WebhookStatus,
};

fn value_to_json(v: &serde_json::Value) -> Json {
    match v {
        serde_json::Value::Null => Json::Null,
        serde_json::Value::Bool(b) => Json::Bool(*b),
        serde_json::Value::Number(n) => Json::Number(n.to_string()),
        serde_json::Value::String(s) => Json::Str(s.clone()),
        serde_json::Value::Array(a) => {
            let mut items = Items::Nil;
            for x in a.iter().rev() {
                items = Items::Cons(value_to_json(x), Box::new(items));
            }
            Json::Array(Box::new(items))
        }
        serde_json::Value::Object(m) => {
            let pairs: Vec<(&String, &serde_json::Value)> = m.iter().collect();
            let mut members = Members::Nil;
            for (k, x) in pairs.into_iter().rev() {
                members = Members::Cons(k.clone(), value_to_json(x), Box::new(members));
            }
            Json::Object(Box::new(members))
        }
    }
}

fn doc(text: &str) -> Json {
    value_to_json(&serde_json::from_str(text).unwrap())
}

fn test_webhook(events: Vec<&str>) -> StoredWebhook {
    StoredWebhook {
        id: "wh-1".into(),
        url: "http://example.com/hook".into(),
        events: events.into_iter().map(String::from).collect(),
        api_key_name: None,
        api_key_value: None,
        flow_ids: None,
        source_ids: None,
        flow_collected_by_ids: None,
        source_collected_by_ids: None,
        accept_get_urls: None,
        accept_storage_ids: None,
        presigned: None,
        verbose_storage: None,
        tags: None,
        status: WebhookStatus::Created,
        error: None,
    }
}

fn flow_created_event() -> StoreEvent {
    StoreEvent::FlowCreated {
        flow: doc(r#"{"id": "f1"}"#),
        source_id: "s1".into(),
        flow_collected_by: vec![],
        source_collected_by: vec![],
    }
}

fn flow_created_with_collections(flow_cb: Vec<&str>, source_cb: Vec<&str>) -> StoreEvent {
    StoreEvent::FlowCreated {
        flow: doc(r#"{"id": "f1"}"#),
        source_id: "s1".into(),
        flow_collected_by: flow_cb.into_iter().map(String::from).collect(),
        source_collected_by: source_cb.into_iter().map(String::from).collect(),
    }
}

fn source_created_event() -> StoreEvent {
    StoreEvent::SourceCreated { source: doc(r#"{"id": "s1"}"#), source_collected_by: vec![] }
}

fn source_created_with_collections(source_cb: Vec<&str>) -> StoreEvent {
    StoreEvent::SourceCreated {
        source: doc(r#"{"id": "s1"}"#),
        source_collected_by: source_cb.into_iter().map(String::from).collect(),
    }
}

#[test]
fn matches_subscribed_event() {
    let wh = test_webhook(vec!["flows/created"]);
    assert!(webhook_matches_event(&wh, &flow_created_event()));
}

#[test]
fn rejects_unsubscribed_event() {
    let wh = test_webhook(vec!["flows/deleted"]);
    assert!(!webhook_matches_event(&wh, &flow_created_event()));
}

#[test]
fn rejects_disabled_webhook() {
    let mut wh = test_webhook(vec!["flows/created"]);
    wh.status = WebhookStatus::Disabled;
    assert!(!webhook_matches_event(&wh, &flow_created_event()));
}

#[test]
fn rejects_error_webhook() {
    let mut wh = test_webhook(vec!["flows/created"]);
    wh.status = WebhookStatus::Error;
    assert!(!webhook_matches_event(&wh, &flow_created_event()));
}

#[test]
fn flow_ids_filter_matches() {
    let mut wh = test_webhook(vec!["flows/created"]);
    wh.flow_ids = Some(vec!["f1".into()]);
    assert!(webhook_matches_event(&wh, &flow_created_event()));
}

#[test]
fn flow_ids_filter_rejects() {
    let mut wh = test_webhook(vec!["flows/created"]);
    wh.flow_ids = Some(vec!["f2".into()]);
    assert!(!webhook_matches_event(&wh, &flow_created_event()));
}

#[test]
fn flow_ids_filter_no_effect_on_source_events() {
    let mut wh = test_webhook(vec!["sources/created"]);
    wh.flow_ids = Some(vec!["f1".into()]);
    assert!(webhook_matches_event(&wh, &source_created_event()));
}

#[test]
fn source_ids_filter_matches() {
    let mut wh = test_webhook(vec!["flows/created"]);
    wh.source_ids = Some(vec!["s1".into()]);
    assert!(webhook_matches_event(&wh, &flow_created_event()));
}

#[test]
fn source_ids_filter_rejects() {
    let mut wh = test_webhook(vec!["flows/created"]);
    wh.source_ids = Some(vec!["s2".into()]);
    assert!(!webhook_matches_event(&wh, &flow_created_event()));
}

#[test]
fn source_ids_filter_on_source_event() {
    let mut wh = test_webhook(vec!["sources/created"]);
    wh.source_ids = Some(vec!["s1".into()]);
    assert!(webhook_matches_event(&wh, &source_created_event()));
}

#[test]
fn flow_collected_by_ids_matches() {
    let mut wh = test_webhook(vec!["flows/created"]);
    wh.flow_collected_by_ids = Some(vec!["collection-1".into()]);
    let event = flow_created_with_collections(vec!["collection-1"], vec![]);
    assert!(webhook_matches_event(&wh, &event));
}

#[test]
fn flow_collected_by_ids_rejects() {
    let mut wh = test_webhook(vec!["flows/created"]);
    wh.flow_collected_by_ids = Some(vec!["collection-1".into()]);
    let event = flow_created_with_collections(vec!["other-collection"], vec![]);
    assert!(!webhook_matches_event(&wh, &event));
}

#[test]
fn flow_collected_by_ids_rejects_empty() {
    let mut wh = test_webhook(vec!["flows/created"]);
    wh.flow_collected_by_ids = Some(vec!["collection-1".into()]);
    assert!(!webhook_matches_event(&wh, &flow_created_event()));
}

#[test]
fn flow_collected_by_ids_no_effect_on_source_events() {
    let mut wh = test_webhook(vec!["sources/created"]);
    wh.flow_collected_by_ids = Some(vec!["collection-1".into()]);
    assert!(webhook_matches_event(&wh, &source_created_event()));
}

#[test]
fn source_collected_by_ids_matches_flow_event() {
    let mut wh = test_webhook(vec!["flows/created"]);
    wh.source_collected_by_ids = Some(vec!["src-col-1".into()]);
    let event = flow_created_with_collections(vec![], vec!["src-col-1"]);
    assert!(webhook_matches_event(&wh, &event));
}

#[test]
fn source_collected_by_ids_rejects_flow_event() {
    let mut wh = test_webhook(vec!["flows/created"]);
    wh.source_collected_by_ids = Some(vec!["src-col-1".into()]);
    assert!(!webhook_matches_event(&wh, &flow_created_event()));
}

#[test]
fn source_collected_by_ids_matches_source_event() {
    let mut wh = test_webhook(vec!["sources/created"]);
    wh.source_collected_by_ids = Some(vec!["src-col-1".into()]);
    let event = source_created_with_collections(vec!["src-col-1"]);
    assert!(webhook_matches_event(&wh, &event));
}

#[test]
fn source_collected_by_ids_rejects_source_event() {
    let mut wh = test_webhook(vec!["sources/created"]);
    wh.source_collected_by_ids = Some(vec!["src-col-1".into()]);
    assert!(!webhook_matches_event(&wh, &source_created_event()));
}

#[test]
fn event_payload_has_required_fields() {
    let event = StoreEvent::FlowCreated {
        flow: doc(r#"{"id": "f1", "source_id": "s1"}"#),
        source_id: "s1".into(),
        flow_collected_by: vec![],
        source_collected_by: vec![],
    };
    let payload = event.to_payload();
    assert_eq!(payload.get_str("event_type").unwrap(), "flows/created");
    assert!(payload.get_str("event_timestamp").is_some());
    let flow = payload.get("event").unwrap().get("flow").unwrap();
    assert_eq!(flow.get_str("id").unwrap(), "f1");
}

#[test]
fn event_payload_deleted_has_flow_id_only() {
    let event = StoreEvent::FlowDeleted {
        flow_id: "f1".into(),
        source_id: "s1".into(),
        flow_collected_by: vec![],
        source_collected_by: vec![],
    };
    let payload = event.to_payload();
    assert_eq!(payload.get_str("event_type").unwrap(), "flows/deleted");
    assert_eq!(payload.get("event").unwrap().get_str("flow_id").unwrap(), "f1");
    assert!(payload.get("event").unwrap().get("flow").is_none());
}

#[test]
fn segments_added_payload_has_segments() {
    let event = StoreEvent::SegmentsAdded {
        flow_id: "f1".into(),
        source_id: "s1".into(),
        segments: vec![doc(r#"{"timerange": "[0:0_5:0)"}"#)],
        flow_collected_by: vec![],
        source_collected_by: vec![],
    };
    let payload = event.to_payload();
    assert_eq!(payload.get_str("event_type").unwrap(), "flows/segments_added");
    assert_eq!(payload.get("event").unwrap().get_str("flow_id").unwrap(), "f1");
    match payload.get("event").unwrap().get("segments").unwrap() {
        Json::Array(items) => match items.as_ref() {
            Items::Cons(_, rest) => assert!(matches!(rest.as_ref(), Items::Nil)),
            Items::Nil => panic!("expected one segment"),
        },
        _ => panic!("expected an array"),
    }
}

#[test]
fn segments_deleted_payload_has_timerange() {
    let event = StoreEvent::SegmentsDeleted {
        flow_id: "f1".into(),
        source_id: "s1".into(),
        timerange: "[0:0_5:0)".into(),
        flow_collected_by: vec![],
        source_collected_by: vec![],
    };
    let payload = event.to_payload();
    assert_eq!(payload.get_str("event_type").unwrap(), "flows/segments_deleted");
    assert_eq!(payload.get("event").unwrap().get_str("timerange").unwrap(), "[0:0_5:0)");
}

#[test]
fn source_updated_payload() {
    let event = StoreEvent::SourceUpdated {
        source: doc(r#"{"id": "s1", "format": "urn:x-nmos:format:video"}"#),
        source_collected_by: vec![],
    };
    let payload = event.to_payload();
    assert_eq!(payload.get_str("event_type").unwrap(), "sources/updated");
    assert_eq!(payload.get("event").unwrap().get("source").unwrap().get_str("id").unwrap(), "s1");
}

#[test]
fn payload_at_uses_given_timestamp() {
    let event = StoreEvent::SourceDeleted { source_id: "s9".into(), source_collected_by: vec![] };
    let payload = event.payload_at("2024-01-01T00:00:00+00:00".to_string());
    assert_eq!(payload.get_str("event_timestamp").unwrap(), "2024-01-01T00:00:00+00:00");
    assert_eq!(payload.get_str("event_type").unwrap(), "sources/deleted");
    assert_eq!(payload.get("event").unwrap().get_str("source_id").unwrap(), "s9");
}

#[test]
fn event_accessors() {
    let e = flow_created_with_collections(vec!["c1"], vec!["sc1"]);
    assert_eq!(e.event_type(), "flows/created");
    assert_eq!(e.flow_id(), Some("f1"));
    assert_eq!(e.source_id(), Some("s1"));
    assert_eq!(e.flow_collected_by().len(), 1);
    assert_eq!(e.source_collected_by()[0], "sc1");
    let s = source_created_event();
    assert_eq!(s.flow_id(), None);
    assert_eq!(s.source_id(), Some("s1"));
    assert!(s.flow_collected_by().is_empty());
}

#[test]
fn valid_event_types() {
    assert!(is_valid_event_type("flows/segments_added"));
    assert!(is_valid_event_type("sources/deleted"));
    assert!(!is_valid_event_type("flows/exploded"));
}

#[test]
fn delivery_moves_status() {
    assert_eq!(next_status_after_delivery(WebhookStatus::Created, true), WebhookStatus::Started);
    assert_eq!(next_status_after_delivery(WebhookStatus::Started, true), WebhookStatus::Started);
    assert_eq!(next_status_after_delivery(WebhookStatus::Started, false), WebhookStatus::Error);
    assert_eq!(next_status_after_delivery(WebhookStatus::Disabled, false), WebhookStatus::Disabled);
    assert_eq!(next_status_after_delivery(WebhookStatus::Error, true), WebhookStatus::Error);
}

#[test]
fn client_status_transitions() {
    assert!(check_status_transition(WebhookStatus::Created, WebhookStatus::Disabled).is_ok());
    assert!(check_status_transition(WebhookStatus::Error, WebhookStatus::Created).is_ok());
    assert!(check_status_transition(WebhookStatus::Started, WebhookStatus::Started).is_ok());
    match check_status_transition(WebhookStatus::Error, WebhookStatus::Disabled) {
        Err(StoreError::BadRequest(m)) => assert!(m.contains("error")),
        _ => panic!("expected a refusal"),
    }
    assert!(check_status_transition(WebhookStatus::Disabled, WebhookStatus::Started).is_err());
    assert_eq!(normalize_initial_status(WebhookStatus::Started), WebhookStatus::Created);
    assert_eq!(normalize_initial_status(WebhookStatus::Disabled), WebhookStatus::Disabled);
}
