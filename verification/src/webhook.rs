//! Webhook registrations, store events, and which registration hears which event.
use vstd::prelude::*;
use crate::error::StoreError;
use crate::json::{items_seq, json_get, json_text, member_names, object_names, Items, Json, Members};
use crate::flow::text_member;
use crate::tags::{string_views, Tags};
use crate::text::str_eq;

verus! {

/// Webhook status lifecycle.
#[derive(Debug, Clone, Copy, PartialEq, Eq, Structural)]
pub enum WebhookStatus {
    Created,
    Started,
    Disabled,
    Error,
}

/// The event types a webhook can subscribe to.
pub open spec fn valid_event_type(e: Seq<char>) -> bool {
    ||| e == "flows/created"@
    ||| e == "flows/updated"@
    ||| e == "flows/deleted"@
    ||| e == "flows/segments_added"@
    ||| e == "flows/segments_deleted"@
    ||| e == "sources/created"@
    ||| e == "sources/updated"@
    ||| e == "sources/deleted"@
}

/// Whether `e` is an event type a webhook can subscribe to.
pub fn is_valid_event_type(e: &str) -> (r: bool)
    ensures
        r == valid_event_type(e@),
{
    str_eq(e, "flows/created") || str_eq(e, "flows/updated") || str_eq(e, "flows/deleted")
        || str_eq(e, "flows/segments_added") || str_eq(e, "flows/segments_deleted") || str_eq(
        e,
        "sources/created",
    ) || str_eq(e, "sources/updated") || str_eq(e, "sources/deleted")
}

/// A stored webhook registration.
pub struct StoredWebhook {
    pub id: String,
    pub url: String,
    pub events: Vec<String>,
    pub api_key_name: Option<String>,
    /// Stored for delivery; never shown back.
    pub api_key_value: Option<String>,
    pub flow_ids: Option<Vec<String>>,
    pub source_ids: Option<Vec<String>>,
    pub flow_collected_by_ids: Option<Vec<String>>,
    pub source_collected_by_ids: Option<Vec<String>>,
    pub accept_get_urls: Option<Vec<String>>,
    pub accept_storage_ids: Option<Vec<String>>,
    pub presigned: Option<bool>,
    pub verbose_storage: Option<bool>,
    pub tags: Option<Tags>,
    pub status: WebhookStatus,
    pub error: Option<Json>,
}

/// An event that webhooks may hear about.
pub enum StoreEvent {
    FlowCreated {
        flow: Json,
        source_id: String,
        /// The flow collections this flow belongs to.
        flow_collected_by: Vec<String>,
        /// The source collections its source belongs to.
        source_collected_by: Vec<String>,
    },
    FlowUpdated {
        flow: Json,
        source_id: String,
        flow_collected_by: Vec<String>,
        source_collected_by: Vec<String>,
    },
    FlowDeleted {
        flow_id: String,
        source_id: String,
        flow_collected_by: Vec<String>,
        source_collected_by: Vec<String>,
    },
    SegmentsAdded {
        flow_id: String,
        source_id: String,
        segments: Vec<Json>,
        flow_collected_by: Vec<String>,
        source_collected_by: Vec<String>,
    },
    SegmentsDeleted {
        flow_id: String,
        source_id: String,
        timerange: String,
        flow_collected_by: Vec<String>,
        source_collected_by: Vec<String>,
    },
    SourceCreated { source: Json, source_collected_by: Vec<String> },
    SourceUpdated { source: Json, source_collected_by: Vec<String> },
    SourceDeleted { source_id: String, source_collected_by: Vec<String> },
}

/// The type string of an event.
pub open spec fn event_type_of(e: StoreEvent) -> Seq<char> {
    match e {
        StoreEvent::FlowCreated { .. } => "flows/created"@,
        StoreEvent::FlowUpdated { .. } => "flows/updated"@,
        StoreEvent::FlowDeleted { .. } => "flows/deleted"@,
        StoreEvent::SegmentsAdded { .. } => "flows/segments_added"@,
        StoreEvent::SegmentsDeleted { .. } => "flows/segments_deleted"@,
        StoreEvent::SourceCreated { .. } => "sources/created"@,
        StoreEvent::SourceUpdated { .. } => "sources/updated"@,
        StoreEvent::SourceDeleted { .. } => "sources/deleted"@,
    }
}

/// The flow an event is about: flow and segment events only.
pub open spec fn event_flow_id(e: StoreEvent) -> Option<Seq<char>> {
    match e {
        StoreEvent::FlowCreated { flow, .. } => json_text(json_get(flow, "id"@)),
        StoreEvent::FlowUpdated { flow, .. } => json_text(json_get(flow, "id"@)),
        StoreEvent::FlowDeleted { flow_id, .. } => Some(flow_id@),
        StoreEvent::SegmentsAdded { flow_id, .. } => Some(flow_id@),
        StoreEvent::SegmentsDeleted { flow_id, .. } => Some(flow_id@),
        _ => None,
    }
}

/// The source an event is about.
pub open spec fn event_source_id(e: StoreEvent) -> Option<Seq<char>> {
    match e {
        StoreEvent::FlowCreated { source_id, .. } => Some(source_id@),
        StoreEvent::FlowUpdated { source_id, .. } => Some(source_id@),
        StoreEvent::FlowDeleted { source_id, .. } => Some(source_id@),
        StoreEvent::SegmentsAdded { source_id, .. } => Some(source_id@),
        StoreEvent::SegmentsDeleted { source_id, .. } => Some(source_id@),
        StoreEvent::SourceCreated { source, .. } => json_text(json_get(source, "id"@)),
        StoreEvent::SourceUpdated { source, .. } => json_text(json_get(source, "id"@)),
        StoreEvent::SourceDeleted { source_id, .. } => Some(source_id@),
    }
}

/// The flow collections an event's flow belongs to; none for source events.
pub open spec fn event_flow_collected_by(e: StoreEvent) -> Seq<Seq<char>> {
    match e {
        StoreEvent::FlowCreated { flow_collected_by, .. } => string_views(flow_collected_by@),
        StoreEvent::FlowUpdated { flow_collected_by, .. } => string_views(flow_collected_by@),
        StoreEvent::FlowDeleted { flow_collected_by, .. } => string_views(flow_collected_by@),
        StoreEvent::SegmentsAdded { flow_collected_by, .. } => string_views(flow_collected_by@),
        StoreEvent::SegmentsDeleted { flow_collected_by, .. } => string_views(flow_collected_by@),
        _ => Seq::empty(),
    }
}

/// The source collections an event's source belongs to.
pub open spec fn event_source_collected_by(e: StoreEvent) -> Seq<Seq<char>> {
    match e {
        StoreEvent::FlowCreated { source_collected_by, .. } => string_views(source_collected_by@),
        StoreEvent::FlowUpdated { source_collected_by, .. } => string_views(source_collected_by@),
        StoreEvent::FlowDeleted { source_collected_by, .. } => string_views(source_collected_by@),
        StoreEvent::SegmentsAdded { source_collected_by, .. } => string_views(source_collected_by@),
        StoreEvent::SegmentsDeleted { source_collected_by, .. } => string_views(source_collected_by@),
        StoreEvent::SourceCreated { source_collected_by, .. } => string_views(source_collected_by@),
        StoreEvent::SourceUpdated { source_collected_by, .. } => string_views(source_collected_by@),
        StoreEvent::SourceDeleted { source_collected_by, .. } => string_views(source_collected_by@),
    }
}

impl StoreEvent {
    /// The event type string for this event.
    pub fn event_type(&self) -> (r: &'static str)
        ensures
            r@ == event_type_of(*self),
    {
        match self {
            StoreEvent::FlowCreated { .. } => "flows/created",
            StoreEvent::FlowUpdated { .. } => "flows/updated",
            StoreEvent::FlowDeleted { .. } => "flows/deleted",
            StoreEvent::SegmentsAdded { .. } => "flows/segments_added",
            StoreEvent::SegmentsDeleted { .. } => "flows/segments_deleted",
            StoreEvent::SourceCreated { .. } => "sources/created",
            StoreEvent::SourceUpdated { .. } => "sources/updated",
            StoreEvent::SourceDeleted { .. } => "sources/deleted",
        }
    }

    /// The flow this event is about, for flow and segment events.
    pub fn flow_id(&self) -> (r: Option<&str>)
        ensures
            match r {
                Some(f) => event_flow_id(*self) == Some(f@),
                None => event_flow_id(*self) is None,
            },
    {
        match self {
            StoreEvent::FlowCreated { flow, .. } => match flow.get_str("id") {
                Some(s) => Some(s.as_str()),
                None => None,
            },
            StoreEvent::FlowUpdated { flow, .. } => match flow.get_str("id") {
                Some(s) => Some(s.as_str()),
                None => None,
            },
            StoreEvent::FlowDeleted { flow_id, .. } => Some(flow_id.as_str()),
            StoreEvent::SegmentsAdded { flow_id, .. } => Some(flow_id.as_str()),
            StoreEvent::SegmentsDeleted { flow_id, .. } => Some(flow_id.as_str()),
            _ => None,
        }
    }

    /// The source this event is about.
    pub fn source_id(&self) -> (r: Option<&str>)
        ensures
            match r {
                Some(f) => event_source_id(*self) == Some(f@),
                None => event_source_id(*self) is None,
            },
    {
        match self {
            StoreEvent::FlowCreated { source_id, .. } => Some(source_id.as_str()),
            StoreEvent::FlowUpdated { source_id, .. } => Some(source_id.as_str()),
            StoreEvent::FlowDeleted { source_id, .. } => Some(source_id.as_str()),
            StoreEvent::SegmentsAdded { source_id, .. } => Some(source_id.as_str()),
            StoreEvent::SegmentsDeleted { source_id, .. } => Some(source_id.as_str()),
            StoreEvent::SourceCreated { source, .. } => match source.get_str("id") {
                Some(s) => Some(s.as_str()),
                None => None,
            },
            StoreEvent::SourceUpdated { source, .. } => match source.get_str("id") {
                Some(s) => Some(s.as_str()),
                None => None,
            },
            StoreEvent::SourceDeleted { source_id, .. } => Some(source_id.as_str()),
        }
    }

    /// The flow collections this event's flow belongs to.
    pub fn flow_collected_by(&self) -> (r: &[String])
        ensures
            string_views(r@) == event_flow_collected_by(*self),
    {
        match self {
            StoreEvent::FlowCreated { flow_collected_by, .. } => flow_collected_by.as_slice(),
            StoreEvent::FlowUpdated { flow_collected_by, .. } => flow_collected_by.as_slice(),
            StoreEvent::FlowDeleted { flow_collected_by, .. } => flow_collected_by.as_slice(),
            StoreEvent::SegmentsAdded { flow_collected_by, .. } => flow_collected_by.as_slice(),
            StoreEvent::SegmentsDeleted { flow_collected_by, .. } => flow_collected_by.as_slice(),
            _ => {
                let r: &[String] = &[];
                assert(string_views(r@) =~= Seq::<Seq<char>>::empty());
                r
            },
        }
    }

    /// The source collections this event's source belongs to.
    pub fn source_collected_by(&self) -> (r: &[String])
        ensures
            string_views(r@) == event_source_collected_by(*self),
    {
        match self {
            StoreEvent::FlowCreated { source_collected_by, .. } => source_collected_by.as_slice(),
            StoreEvent::FlowUpdated { source_collected_by, .. } => source_collected_by.as_slice(),
            StoreEvent::FlowDeleted { source_collected_by, .. } => source_collected_by.as_slice(),
            StoreEvent::SegmentsAdded { source_collected_by, .. } => source_collected_by.as_slice(),
            StoreEvent::SegmentsDeleted { source_collected_by, .. } => source_collected_by.as_slice(),
            StoreEvent::SourceCreated { source_collected_by, .. } => source_collected_by.as_slice(),
            StoreEvent::SourceUpdated { source_collected_by, .. } => source_collected_by.as_slice(),
            StoreEvent::SourceDeleted { source_collected_by, .. } => source_collected_by.as_slice(),
        }
    }
}

/// The `event` object of an event's payload: the flow or source document of
/// a create or update, the id of a deletion, a flow's id with the added
/// segments or the deleted range; nothing else.
pub open spec fn event_data_shown(e: StoreEvent, d: Json) -> bool {
    match e {
        StoreEvent::FlowCreated { flow, .. } => object_names(d) == seq!["flow"@] && json_get(d, "flow"@) == Some(flow),
        StoreEvent::FlowUpdated { flow, .. } => object_names(d) == seq!["flow"@] && json_get(d, "flow"@) == Some(flow),
        StoreEvent::FlowDeleted { flow_id, .. } => object_names(d) == seq!["flow_id"@] && text_member(d, "flow_id"@) == Some(flow_id@),
        StoreEvent::SegmentsAdded { flow_id, segments, .. } => {
            &&& object_names(d) == seq!["flow_id"@, "segments"@]
            &&& text_member(d, "flow_id"@) == Some(flow_id@)
            &&& json_get(d, "segments"@) matches Some(Json::Array(l)) && items_seq(*l) == segments@
        },
        StoreEvent::SegmentsDeleted { flow_id, timerange, .. } => {
            &&& object_names(d) == seq!["flow_id"@, "timerange"@]
            &&& text_member(d, "flow_id"@) == Some(flow_id@)
            &&& text_member(d, "timerange"@) == Some(timerange@)
        },
        StoreEvent::SourceCreated { source, .. } => object_names(d) == seq!["source"@] && json_get(d, "source"@) == Some(source),
        StoreEvent::SourceUpdated { source, .. } => object_names(d) == seq!["source"@] && json_get(d, "source"@) == Some(source),
        StoreEvent::SourceDeleted { source_id, .. } => object_names(d) == seq!["source_id"@] && text_member(d, "source_id"@) == Some(source_id@),
    }
}

/// The payload delivered for an event at a time: its timestamp, its type and its data.
pub open spec fn payload_shown(e: StoreEvent, timestamp: Seq<char>, p: Json) -> bool {
    &&& object_names(p) == seq!["event_timestamp"@, "event_type"@, "event"@]
    &&& text_member(p, "event_timestamp"@) == Some(timestamp)
    &&& text_member(p, "event_type"@) == Some(event_type_of(e))
    &&& json_get(p, "event"@) matches Some(d) && event_data_shown(e, d)
}

fn one_member(name: &str, v: Json) -> (r: Json)
    ensures
        object_names(r) == seq![name@],
        json_get(r, name@) == Some(v),
{
    let r = Json::Object(Box::new(Members::Cons(name.to_owned(), v, Box::new(Members::Nil))));
    proof {
        reveal_with_fuel(member_names, 2);
    }
    assert(object_names(r) =~= seq![name@]);
    r
}

fn two_members(n1: &str, v1: Json, n2: &str, v2: Json) -> (r: Json)
    requires
        n1@ != n2@,
    ensures
        object_names(r) == seq![n1@, n2@],
        json_get(r, n1@) == Some(v1),
        json_get(r, n2@) == Some(v2),
{
    let m2 = Members::Cons(n2.to_owned(), v2, Box::new(Members::Nil));
    let r = Json::Object(Box::new(Members::Cons(n1.to_owned(), v1, Box::new(m2))));
    proof {
        reveal_with_fuel(crate::json::member, 3);
        reveal_with_fuel(member_names, 3);
    }
    assert(object_names(r) =~= seq![n1@, n2@]);
    r
}

fn items_of(v: &Vec<Json>) -> (r: Items)
    ensures
        items_seq(r) == v@,
{
    let mut out = Items::Nil;
    let mut i: usize = v.len();
    while i > 0
        invariant
            i <= v@.len(),
            items_seq(out) == v@.skip(i as int),
        decreases i,
    {
        i = i - 1;
        let ghost rest = out;
        out = Items::Cons(v[i].copy(), Box::new(out));
        assert(v@.skip(i as int) =~= seq![v@[i as int]] + v@.skip(i + 1));
    }
    assert(v@.skip(0) =~= v@);
    out
}

impl StoreEvent {
    /// The event's `event` object.
    fn data(&self) -> (r: Json)
        ensures
            event_data_shown(*self, r),
    {
        proof {
            reveal_strlit("flow_id");
            reveal_strlit("segments");
            reveal_strlit("timerange");
        }
        match self {
            StoreEvent::FlowCreated { flow, .. } => one_member("flow", flow.copy()),
            StoreEvent::FlowUpdated { flow, .. } => one_member("flow", flow.copy()),
            StoreEvent::FlowDeleted { flow_id, .. } => one_member("flow_id", Json::Str(flow_id.clone())),
            StoreEvent::SegmentsAdded { flow_id, segments, .. } => {
                assert("flow_id"@.len() != "segments"@.len());
                two_members("flow_id", Json::Str(flow_id.clone()), "segments", Json::Array(Box::new(items_of(segments))))
            },
            StoreEvent::SegmentsDeleted { flow_id, timerange, .. } => {
                assert("flow_id"@.len() != "timerange"@.len());
                two_members("flow_id", Json::Str(flow_id.clone()), "timerange", Json::Str(timerange.clone()))
            },
            StoreEvent::SourceCreated { source, .. } => one_member("source", source.copy()),
            StoreEvent::SourceUpdated { source, .. } => one_member("source", source.copy()),
            StoreEvent::SourceDeleted { source_id, .. } => one_member("source_id", Json::Str(source_id.clone())),
        }
    }

    /// The payload delivered for this event, stamped with `timestamp`.
    pub fn payload_at(&self, timestamp: String) -> (r: Json)
        ensures
            payload_shown(*self, timestamp@, r),
    {
        proof {
            reveal_strlit("event_timestamp");
            reveal_strlit("event_type");
            reveal_strlit("event");
            reveal_with_fuel(crate::json::member, 4);
            reveal_with_fuel(member_names, 4);
        }
        assert("event_timestamp"@.len() == 15);
        assert("event_type"@.len() == 10);
        assert("event"@.len() == 5);
        let ghost ts = timestamp@;
        let data = self.data();
        let m3 = Members::Cons("event".to_owned(), data, Box::new(Members::Nil));
        let m2 = Members::Cons("event_type".to_owned(), Json::Str(self.event_type().to_owned()), Box::new(m3));
        let m1 = Members::Cons("event_timestamp".to_owned(), Json::Str(timestamp), Box::new(m2));
        let r = Json::Object(Box::new(m1));
        assert(object_names(r) =~= seq!["event_timestamp"@, "event_type"@, "event"@]);
        r
    }

    /// The payload delivered for this event, stamped with the current time.
    pub fn to_payload(&self) -> (r: Json)
        ensures
            exists|t: Seq<char>| payload_shown(*self, t, r),
    {
        let r = self.payload_at(crate::sys::now_rfc3339());
        r
    }
}

/// The two lists share an element.
pub open spec fn share_any(a: Seq<Seq<char>>, b: Seq<Seq<char>>) -> bool {
    exists|i: int, j: int| 0 <= i < a.len() && 0 <= j < b.len() && a[i] == b[j]
}

/// An optional list filter passes `x`: no filter, or `x` is absent, or it is listed.
pub open spec fn id_filter_passes(filter: Option<Vec<String>>, x: Option<Seq<char>>) -> bool {
    match filter {
        Some(ids) => match x {
            Some(v) => string_views(ids@).contains(v),
            None => true,
        },
        None => true,
    }
}

/// An optional collection filter passes: no filter, or it does not apply,
/// or it shares a collection with `cb`.
pub open spec fn collected_filter_passes(filter: Option<Vec<String>>, applies: bool, cb: Seq<Seq<char>>) -> bool {
    match filter {
        Some(ids) => applies ==> share_any(string_views(ids@), cb),
        None => true,
    }
}

/// Whether a webhook hears an event: it subscribes to the type, is active,
/// and every filter it sets lets the event through.
pub open spec fn hears(w: StoredWebhook, e: StoreEvent) -> bool {
    &&& string_views(w.events@).contains(event_type_of(e))
    &&& (w.status == WebhookStatus::Created || w.status == WebhookStatus::Started)
    &&& id_filter_passes(w.flow_ids, event_flow_id(e))
    &&& id_filter_passes(w.source_ids, event_source_id(e))
    &&& collected_filter_passes(w.flow_collected_by_ids, event_flow_id(e) is Some, event_flow_collected_by(e))
    &&& collected_filter_passes(w.source_collected_by_ids, true, event_source_collected_by(e))
}

/// Whether `x` is among `list`.
pub fn listed(list: &[String], x: &str) -> (r: bool)
    ensures
        r == string_views(list@).contains(x@),
{
    let mut i: usize = 0;
    while i < list.len()
        invariant
            i <= list@.len(),
            forall|j: int| 0 <= j < i ==> list@[j]@ != x@,
        decreases list@.len() - i,
    {
        if str_eq(list[i].as_str(), x) {
            assert(string_views(list@)[i as int] == x@);
            return true;
        }
        i = i + 1;
    }
    assert forall|j: int| 0 <= j < string_views(list@).len() implies string_views(list@)[j] != x@ by {
        assert(string_views(list@)[j] == list@[j]@);
    }
    false
}

/// Whether the two lists share an element.
pub fn any_shared(a: &[String], b: &[String]) -> (r: bool)
    ensures
        r == share_any(string_views(a@), string_views(b@)),
{
    let mut i: usize = 0;
    while i < a.len()
        invariant
            i <= a@.len(),
            forall|x: int, y: int| 0 <= x < i && 0 <= y < b@.len() ==> a@[x]@ != b@[y]@,
        decreases a@.len() - i,
    {
        if listed(b, a[i].as_str()) {
            proof {
                let y = choose|y: int| 0 <= y < string_views(b@).len() && string_views(b@)[y] == a@[i as int]@;
                assert(string_views(a@)[i as int] == string_views(b@)[y]);
            }
            return true;
        }
        proof {
            assert forall|y: int| 0 <= y < b@.len() implies a@[i as int]@ != b@[y]@ by {
                if a@[i as int]@ == b@[y]@ {
                    assert(string_views(b@)[y] == a@[i as int]@);
                }
            }
        }
        i = i + 1;
    }
    proof {
        if share_any(string_views(a@), string_views(b@)) {
            let (x, y) = choose|x: int, y: int| 0 <= x < string_views(a@).len() && 0 <= y < string_views(b@).len()
                && string_views(a@)[x] == string_views(b@)[y];
            assert(a@[x]@ != b@[y]@);
        }
    }
    false
}

/// Whether a webhook should receive a given event based on its filters.
pub fn webhook_matches_event(webhook: &StoredWebhook, event: &StoreEvent) -> (r: bool)
    ensures
        r == hears(*webhook, *event),
{
    if !listed(webhook.events.as_slice(), event.event_type()) {
        return false;
    }
    if !(webhook.status == WebhookStatus::Created || webhook.status == WebhookStatus::Started) {
        return false;
    }
    if let Some(filter_ids) = &webhook.flow_ids {
        if let Some(flow_id) = event.flow_id() {
            if !listed(filter_ids.as_slice(), flow_id) {
                return false;
            }
        }
    }
    if let Some(filter_ids) = &webhook.source_ids {
        if let Some(source_id) = event.source_id() {
            if !listed(filter_ids.as_slice(), source_id) {
                return false;
            }
        }
    }
    if let Some(filter_ids) = &webhook.flow_collected_by_ids {
        if event.flow_id().is_some() && !any_shared(filter_ids.as_slice(), event.flow_collected_by()) {
            return false;
        }
    }
    if let Some(filter_ids) = &webhook.source_collected_by_ids {
        if !any_shared(filter_ids.as_slice(), event.source_collected_by()) {
            return false;
        }
    }
    true
}

/// A status a new registration may start in: created or disabled as asked,
/// anything else becomes created.
pub open spec fn initial_status(s: WebhookStatus) -> WebhookStatus {
    if s == WebhookStatus::Created || s == WebhookStatus::Disabled {
        s
    } else {
        WebhookStatus::Created
    }
}

pub fn normalize_initial_status(s: WebhookStatus) -> (r: WebhookStatus)
    ensures
        r == initial_status(s),
{
    if s == WebhookStatus::Created || s == WebhookStatus::Disabled {
        s
    } else {
        WebhookStatus::Created
    }
}

/// Whether a client may move a webhook from `from` to `to`.
pub open spec fn transition_allowed(from: WebhookStatus, to: WebhookStatus) -> bool {
    ||| from == to
    ||| ((from == WebhookStatus::Created || from == WebhookStatus::Started) && to == WebhookStatus::Disabled)
    ||| ((from == WebhookStatus::Disabled || from == WebhookStatus::Error) && to == WebhookStatus::Created)
}

/// The name a status is written with in messages.
pub open spec fn status_name(s: WebhookStatus) -> Seq<char> {
    match s {
        WebhookStatus::Created => "Created"@,
        WebhookStatus::Started => "Started"@,
        WebhookStatus::Disabled => "Disabled"@,
        WebhookStatus::Error => "Error"@,
    }
}

fn status_name_of(s: WebhookStatus) -> (r: &'static str)
    ensures
        r@ == status_name(s),
{
    match s {
        WebhookStatus::Created => "Created",
        WebhookStatus::Started => "Started",
        WebhookStatus::Disabled => "Disabled",
        WebhookStatus::Error => "Error",
    }
}

/// The message refusing a move from error straight to disabled.
pub open spec fn error_to_disabled_message() -> Seq<char> {
    "Cannot transition from error to disabled; set to created to re-enable"@
}

/// The message refusing any other move.
pub open spec fn invalid_transition_message(from: WebhookStatus, to: WebhookStatus) -> Seq<char> {
    "Invalid status transition: "@ + status_name(from) + " → "@ + status_name(to)
}

/// Checks a status change asked for by a client.
pub fn check_status_transition(from: WebhookStatus, to: WebhookStatus) -> (r: Result<(), StoreError>)
    ensures
        transition_allowed(from, to) <==> r is Ok,
        !transition_allowed(from, to) && from == WebhookStatus::Error && to == WebhookStatus::Disabled
            ==> (r matches Err(StoreError::BadRequest(m)) && m@ == error_to_disabled_message()),
        !transition_allowed(from, to) && !(from == WebhookStatus::Error && to == WebhookStatus::Disabled)
            ==> (r matches Err(StoreError::BadRequest(m)) && m@ == invalid_transition_message(from, to)),
{
    if from == to {
        return Ok(());
    }
    if (from == WebhookStatus::Created || from == WebhookStatus::Started) && to == WebhookStatus::Disabled {
        return Ok(());
    }
    if (from == WebhookStatus::Disabled || from == WebhookStatus::Error) && to == WebhookStatus::Created {
        return Ok(());
    }
    if from == WebhookStatus::Error && to == WebhookStatus::Disabled {
        return Err(
            StoreError::BadRequest(
                String::from_str("Cannot transition from error to disabled; set to created to re-enable"),
            ),
        );
    }
    let m = String::from_str("Invalid status transition: ").concat(status_name_of(from)).concat(
        " → ",
    ).concat(status_name_of(to));
    Err(StoreError::BadRequest(m))
}

/// The status after a delivery attempt: a disabled webhook stays so; a
/// success moves created to started; a failure moves to error.
pub open spec fn status_after_delivery(s: WebhookStatus, success: bool) -> WebhookStatus {
    if s == WebhookStatus::Disabled {
        s
    } else if success && s == WebhookStatus::Created {
        WebhookStatus::Started
    } else if !success {
        WebhookStatus::Error
    } else {
        s
    }
}

pub fn next_status_after_delivery(s: WebhookStatus, success: bool) -> (r: WebhookStatus)
    ensures
        r == status_after_delivery(s, success),
{
    if s == WebhookStatus::Disabled {
        s
    } else if success && s == WebhookStatus::Created {
        WebhookStatus::Started
    } else if !success {
        WebhookStatus::Error
    } else {
        s
    }
}

/// Deliveries move a webhook along its lifecycle and no further: a
/// disabled webhook stays disabled; a failed delivery puts any other in
/// error; a successful one starts a created webhook and leaves the others
/// as they are.
pub proof fn law_delivery_lifecycle(s: WebhookStatus, success: bool)
    ensures
        s == WebhookStatus::Disabled ==> status_after_delivery(s, success) == WebhookStatus::Disabled,
        s != WebhookStatus::Disabled && !success ==> status_after_delivery(s, success) == WebhookStatus::Error,
        success && s == WebhookStatus::Created ==> status_after_delivery(s, success) == WebhookStatus::Started,
        success && s != WebhookStatus::Created ==> status_after_delivery(s, success) == s,
{
}

/// The same webhook with another status.
pub open spec fn with_status(w: StoredWebhook, s: WebhookStatus) -> StoredWebhook {
    StoredWebhook { status: s, ..w }
}

/// A successful delivery never stops a webhook hearing: a webhook that
/// hears an event still hears it after its status moves by a successful
/// delivery (a created webhook becomes started, and started ones hear
/// events just as created ones do).
pub proof fn law_success_keeps_hearing(w: StoredWebhook, e: StoreEvent)
    requires
        hears(w, e),
    ensures
        hears(with_status(w, status_after_delivery(w.status, true)), e),
        hears(with_status(w, WebhookStatus::Started), e),
        hears(with_status(w, WebhookStatus::Created), e),
{
}

/// An active webhook (created or started) with no id or collection filters
/// hears every event of a type it subscribes to, and no webhook hears an
/// event of a type it does not subscribe to.
pub proof fn law_subscribers_hear(w: StoredWebhook, e: StoreEvent)
    ensures
        string_views(w.events@).contains(event_type_of(e)) && (w.status == WebhookStatus::Created
            || w.status == WebhookStatus::Started) && w.flow_ids is None && w.source_ids is None
            && w.flow_collected_by_ids is None && w.source_collected_by_ids is None ==> hears(w, e),
        !string_views(w.events@).contains(event_type_of(e)) ==> !hears(w, e),
{
}

/// Only the status decides between webhooks that differ in it alone: a
/// disabled webhook or one in error hears nothing, a created or started
/// one hears what its subscriptions and filters let through, the same for
/// both.
pub proof fn law_status_and_hearing(w: StoredWebhook, e: StoreEvent)
    ensures
        hears(with_status(w, WebhookStatus::Started), e) == hears(with_status(w, WebhookStatus::Created), e),
        !hears(with_status(w, WebhookStatus::Disabled), e),
        !hears(with_status(w, WebhookStatus::Error), e),
{
}

} // verus!
