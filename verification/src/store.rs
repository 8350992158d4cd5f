//! The metadata store: sources, flows, segments, object instances, webhooks
//! and deletion requests, with the rules every change follows. Keeping it
//! durable and delivering its events is left to whoever holds it.
use vstd::prelude::*;
use crate::error::{opt_str_view, DeleteResult, DeletionRequest, DeletionStatus, StoreError};
use crate::json::{Json, Members};
use crate::service::{ServiceInfo, ServicePost, StorageBackend};
use crate::source::{
    fill_source_defaults, source_document, source_json, with_defaults, CollectionItem, Source, SourceFilters,
};
use crate::strmap::{ordered_keys_of, StrMap};
use crate::sys::{new_uuid, now_rfc3339};
use crate::flow::StoredFlow;
use crate::segment::{
    batch_accepted, batch_failed, check_segments, doc_range, failure_matches, is_reordering,
    lemma_batch_disjoint, lemma_reordering_disjoint, pairwise_disjoint, seg_ranges, sort_by_start,
    sorted_by_start, union_of, FailedSegment, SegmentPostResult, StoredSegment, SegmentQuery,
    SegmentListing, SegmentDeleteResult, StorageRequest, AllocatedObject, selected, shown_document,
    show_document, matches_query, delete_matches, kept_after_delete, lemma_kept_disjoint,
    query_removes, query_selects, controlled_url_shown, should_include_controlled_url, build_controlled_url,
    controlled_entry,
};
use crate::timerange::{spec_overlaps, spec_parse_timerange, timerange_text, TimeRange};
use crate::flow::FlowFilters;
use crate::collection::{member_set, same_core_but_collected};
use crate::object::{InstanceRequest, InstanceSelector, ObjectInfo, ObjectQuery, UncontrolledInstance};
use crate::tags::{filters_match, string_views, TagFilters, TagValue, Tags};
use crate::text::str_eq;
use crate::collection::{
    build_source_collection_items, item_views, opt_item_views, pair_views, relink_children,
    relinked, resolve_flow_ids_to_source_ids, source_ids_of, source_items_of, source_relinked,
    sync_source_collection,
};
use crate::flow::{
    child_ids_of, collection_items_of, core_read_from, extract_collection_child_ids_from_core,
    extract_collection_items, flow_core_from_document, has_core, text_member, FlowCore,
};
use crate::flowdoc::{flow_doc_error, server_fields_set, server_managed, set_server_fields,
    validate_flow_document};
use crate::json::{json_bool, json_get};
use crate::webhook::{
    event_source_collected_by, event_source_id, initial_status, normalize_initial_status,
    next_status_after_delivery, status_after_delivery, check_status_transition, transition_allowed,
    error_to_disabled_message, invalid_transition_message, StoreEvent, StoredWebhook, WebhookStatus,
    webhook_matches_event, hears,
};

verus! {

/// The time of a change and a fresh identifier for it.
pub struct Stamp {
    pub now: String,
    pub id: String,
}

impl Stamp {
    /// The current time and a fresh random identifier.
    pub fn current() -> (r: Stamp)
        ensures
            r.id@.len() == 36,
            crate::sys::rfc3339_instant_of(r.now@) is Some,
    {
        Stamp { now: now_rfc3339(), id: new_uuid() }
    }
}

/// The position in a list of `n` items that place `i` of a listing shows:
/// the same, or counted from the end when the listing is reversed.
pub open spec fn listed_position(n: int, i: int, reverse: bool) -> int {
    if reverse {
        n - 1 - i
    } else {
        i
    }
}

/// The message refusing tags that are not a map of names to a string or an array of strings.
pub open spec fn invalid_tags_message() -> Seq<char> {
    "Invalid tags: expected a map from names to a string or an array of strings"@
}

/// The message for a missing resource of a kind.
pub open spec fn not_found_message(kind: Seq<char>, id: Seq<char>) -> Seq<char> {
    kind + " "@ + id + " not found"@
}

fn not_found(kind: &str, id: &str) -> (r: StoreError)
    ensures
        r matches StoreError::NotFound(m) && m@ == not_found_message(kind@, id@),
{
    StoreError::NotFound(String::from_str(kind).concat(" ").concat(id).concat(" not found"))
}

/// The ranges of an object's segments, in order.
pub open spec fn object_ranges(s: Seq<StoredSegment>, o: Seq<char>) -> Seq<TimeRange>
    decreases s.len(),
{
    if s.len() == 0 {
        Seq::empty()
    } else if s.last().object_id@ == o {
        object_ranges(s.drop_last(), o).push(s.last().timerange)
    } else {
        object_ranges(s.drop_last(), o)
    }
}

/// The instances whose label a label filter accepts, in order.
pub open spec fn kept_instances(insts: Seq<UncontrolledInstance>, accept: Option<Vec<String>>) -> Seq<UncontrolledInstance>
    decreases insts.len(),
{
    if insts.len() == 0 {
        Seq::empty()
    } else {
        let rest = kept_instances(insts.drop_last(), accept);
        let ok = match accept {
            Some(labels) => string_views(labels@).contains(insts.last().label@),
            None => true,
        };
        if ok {
            rest.push(insts.last())
        } else {
            rest
        }
    }
}

/// How an instance shows as a `get_urls` entry: its URL and label, and with
/// `verbose` marked as not controlled.
pub open spec fn instance_url_shown(inst: UncontrolledInstance, j: Json, verbose: bool) -> bool {
    &&& crate::flow::text_member(j, "url"@) == Some(inst.url@)
    &&& crate::flow::text_member(j, "label"@) == Some(inst.label@)
    &&& verbose ==> json_bool(json_get(j, "controlled"@)) == Some(false)
    &&& !verbose ==> json_get(j, "controlled"@) is None
}

fn instance_url(inst: &UncontrolledInstance, verbose: bool) -> (r: Json)
    ensures
        instance_url_shown(*inst, r, verbose),
{
    proof {
        reveal_strlit("url");
        reveal_strlit("label");
        reveal_strlit("controlled");
        reveal_with_fuel(crate::json::member, 4);
    }
    assert("url"@.len() == 3);
    assert("label"@.len() == 5);
    assert("controlled"@.len() == 10);
    assert("url"@ != "label"@);
    let tail = if verbose {
        Members::Cons("controlled".to_owned(), Json::Bool(false), Box::new(Members::Nil))
    } else {
        Members::Nil
    };
    let m1 = Members::Cons("label".to_owned(), Json::Str(inst.label.clone()), Box::new(tail));
    let m2 = Members::Cons("url".to_owned(), Json::Str(inst.url.clone()), Box::new(m1));
    Json::Object(Box::new(m2))
}

/// The instances whose label is not `l`, in order.
pub open spec fn without_label(s: Seq<UncontrolledInstance>, l: Seq<char>) -> Seq<UncontrolledInstance>
    decreases s.len(),
{
    if s.len() == 0 {
        Seq::empty()
    } else if s.last().label@ == l {
        without_label(s.drop_last(), l)
    } else {
        without_label(s.drop_last(), l).push(s.last())
    }
}

/// Leaving out a label never lengthens a list.
pub proof fn lemma_without_label_len(s: Seq<UncontrolledInstance>, l: Seq<char>)
    ensures
        without_label(s, l).len() <= s.len(),
    decreases s.len(),
{
    if s.len() > 0 {
        lemma_without_label_len(s.drop_last(), l);
    }
}

/// A tag set on a flow reads back: once the edited document is stamped
/// and its typed fields read from it again, the flow's tags, when they read
/// as tags at all, hold the name with the value's strings, of its kind.
pub proof fn law_flow_tag_reads_back(
    doc: Json,
    edited: Json,
    stored: Json,
    now: Seq<char>,
    version: Seq<char>,
    core: FlowCore,
    name: Seq<char>,
    value: TagValue,
)
    requires
        doc is Object,
        json_get(doc, "tags"@) is None || (json_get(doc, "tags"@) matches Some(Json::Object(_))),
        Store::tag_set_in(doc, edited, name, value),
        Store::stamped(edited, stored, now, version),
        core_read_from(core, stored),
        core.tags is Some,
    ensures
        core.tags->0@.contains_key(name),
        crate::tags::tag_strings(core.tags->0@[name]) == crate::tags::tag_strings(value),
        (core.tags->0@[name] is Single <==> value is Single),
{
    reveal_strlit("tags");
    reveal_strlit("metadata_updated");
    reveal_strlit("metadata_version");
    assert("tags"@.len() != "metadata_updated"@.len());
    assert("tags"@.len() != "metadata_version"@.len());
    assert(json_get(stored, "tags"@) == json_get(edited, "tags"@));
    let t = core.tags->0;
    let m = *json_get(stored, "tags"@)->0->Object_0;
    assert(t@.contains_key(name) <==> crate::json::member(m, name) is Some);
}

/// A property set on a flow reads back: once the edited document is
/// stamped, it holds the value under the property's name, and every other
/// member but the two the stamp writes is as it was. (The stamp's own two
/// names are overwritten by it, so they are left out.)
pub proof fn law_flow_property_reads_back(
    doc: Json,
    name: String,
    value: Json,
    stored: Json,
    now: Seq<char>,
    version: Seq<char>,
)
    requires
        doc is Object,
        name@ != "metadata_updated"@,
        name@ != "metadata_version"@,
        Store::stamped(crate::json::json_with(doc, name@, name, value), stored, now, version),
    ensures
        json_get(stored, name@) == Some(value),
        forall|q: Seq<char>|
            q != name@ && q != "metadata_updated"@ && q != "metadata_version"@ ==> #[trigger] json_get(stored, q)
                == json_get(doc, q),
{
    crate::json::lemma_get_with(doc, name, value, name@);
    assert forall|q: Seq<char>|
        q != name@ && q != "metadata_updated"@ && q != "metadata_version"@ implies #[trigger] json_get(stored, q)
            == json_get(doc, q) by {
        crate::json::lemma_get_with(doc, name, value, q);
    }
}

/// A property removed from a flow stays removed: once the edited document
/// is stamped, it has nothing under the property's name, and every other
/// member but the two the stamp writes is as it was.
pub proof fn law_flow_property_removed(doc: Json, property: Seq<char>, stored: Json, now: Seq<char>, version: Seq<char>)
    requires
        doc is Object,
        property != "metadata_updated"@,
        property != "metadata_version"@,
        Store::stamped(crate::json::json_removed(doc, property), stored, now, version),
    ensures
        json_get(stored, property) is None,
        forall|q: Seq<char>|
            q != property && q != "metadata_updated"@ && q != "metadata_version"@ ==> #[trigger] json_get(stored, q)
                == json_get(doc, q),
{
    crate::json::lemma_get_removed(doc, property, property);
    assert forall|q: Seq<char>|
        q != property && q != "metadata_updated"@ && q != "metadata_version"@ implies #[trigger] json_get(stored, q)
            == json_get(doc, q) by {
        crate::json::lemma_get_removed(doc, property, q);
    }
}

/// A flow listing lists only flows that pass each filter it sets: the
/// source id, format, codec and label asked for, and the frame size; a
/// flow of another source is never listed under a source filter.
pub proof fn law_flow_listing_filters(c: FlowCore, f: FlowFilters, tf: TagFilters)
    requires
        Store::flow_listed(c, f, tf),
    ensures
        f.source_id matches Some(x) ==> c.source_id@ == x@,
        f.format matches Some(x) ==> c.format@ == x@,
        f.codec matches Some(x) ==> (c.codec matches Some(y) && y@ == x@),
        f.label matches Some(x) ==> (c.label matches Some(y) && y@ == x@),
        f.frame_width matches Some(w) ==> c.frame_width == Some(w),
        f.frame_height matches Some(h) ==> c.frame_height == Some(h),
{
}

/// Without a time range or tag filters, a flow that has every field a
/// listing's filters ask for is listed.
pub proof fn law_flow_listing_keeps_matching(c: FlowCore, f: FlowFilters, tf: TagFilters)
    requires
        f.source_id matches Some(x) ==> c.source_id@ == x@,
        f.format matches Some(x) ==> c.format@ == x@,
        f.codec matches Some(x) ==> (c.codec matches Some(y) && y@ == x@),
        f.label matches Some(x) ==> (c.label matches Some(y) && y@ == x@),
        f.frame_width matches Some(w) ==> c.frame_width == Some(w),
        f.frame_height matches Some(h) ==> c.frame_height == Some(h),
        f.timerange is None,
        tf.value_filters@.len() == 0,
        tf.exists_filters@.len() == 0,
    ensures
        Store::flow_listed(c, f, tf),
{
}

/// The in-memory metadata store.
pub struct Store {
    service_info: ServiceInfo,
    storage_backends: Vec<StorageBackend>,
    sources: StrMap<Source>,
    flows: StrMap<StoredFlow>,
    segments: StrMap<Vec<StoredSegment>>,
    object_instances: StrMap<Vec<UncontrolledInstance>>,
    webhooks: StrMap<StoredWebhook>,
    deletion_requests: StrMap<DeletionRequest>,
    events: Vec<StoreEvent>,
}

/// Two sources agree on every field but their tags, label, description and update time.
pub open spec fn same_source_identity(a: Source, b: Source) -> bool {
    &&& a.id == b.id
    &&& a.format == b.format
    &&& a.created_by == b.created_by
    &&& a.updated_by == b.updated_by
    &&& a.created == b.created
    &&& a.source_collection == b.source_collection
    &&& a.collected_by == b.collected_by
}

/// A list filter on an optional string field: none set, or equal.
pub open spec fn opt_filter_passes(filter: Option<String>, value: Option<String>) -> bool {
    filter matches Some(f) ==> opt_str_view(value) == Some(f@)
}

/// The tags of an optional tag map, none meaning empty.
pub open spec fn tags_or_empty(t: Option<Tags>) -> Map<Seq<char>, TagValue> {
    match t {
        Some(t) => t@,
        None => Map::empty(),
    }
}

/// Whether a source is listed under the filters.
pub open spec fn source_listed(s: Source, f: SourceFilters, tf: TagFilters) -> bool {
    &&& opt_filter_passes(f.label, s.label)
    &&& (f.format matches Some(fmt) ==> s.format@ == fmt@)
    &&& tag_filters_pass(tf, tags_or_empty(s.tags))
}

/// Whether tags pass tag filters.
pub open spec fn tag_filters_pass(tf: TagFilters, tags: Map<Seq<char>, TagValue>) -> bool {
    filters_match(tf.value_filters@, tf.exists_filters@, tags)
}

/// The collected_by list of an optional list, none meaning empty.
pub open spec fn list_or_empty(v: Option<Vec<String>>) -> Seq<Seq<char>> {
    match v {
        Some(v) => string_views(v@),
        None => Seq::empty(),
    }
}

fn copy_strings(v: &Vec<String>) -> (r: Vec<String>)
    ensures
        string_views(r@) == string_views(v@),
{
    let mut out: Vec<String> = Vec::new();
    let mut i: usize = 0;
    while i < v.len()
        invariant
            i <= v@.len(),
            out@.len() == i,
            forall|j: int| 0 <= j < i ==> #[trigger] out@[j]@ == v@[j]@,
        decreases v@.len() - i,
    {
        out.push(v[i].clone());
        i = i + 1;
    }
    assert(string_views(out@) =~= string_views(v@));
    out
}

fn strings_or_empty(v: &Option<Vec<String>>) -> (r: Vec<String>)
    ensures
        string_views(r@) == list_or_empty(*v),
{
    match v {
        Some(v) => copy_strings(v),
        None => {
            let r: Vec<String> = Vec::new();
            assert(string_views(r@) =~= Seq::<Seq<char>>::empty());
            r
        },
    }
}

impl Store {
    pub closed spec fn sources(self) -> Map<Seq<char>, Source> {
        self.sources@
    }

    pub closed spec fn flows(self) -> Map<Seq<char>, StoredFlow> {
        self.flows@
    }

    pub closed spec fn segments(self) -> Map<Seq<char>, Vec<StoredSegment>> {
        self.segments@
    }

    pub closed spec fn instances(self) -> Map<Seq<char>, Vec<UncontrolledInstance>> {
        self.object_instances@
    }

    pub closed spec fn webhooks(self) -> Map<Seq<char>, StoredWebhook> {
        self.webhooks@
    }

    pub closed spec fn deletions(self) -> Map<Seq<char>, DeletionRequest> {
        self.deletion_requests@
    }

    /// The events not yet handed out, oldest first.
    pub closed spec fn events(self) -> Seq<StoreEvent> {
        self.events@
    }

    pub closed spec fn backends(self) -> Seq<StorageBackend> {
        self.storage_backends@
    }

    pub closed spec fn service(self) -> ServiceInfo {
        self.service_info
    }

    /// Every source, webhook and deletion request is stored under its own id.
    pub closed spec fn wf(self) -> bool {
        &&& forall|k: Seq<char>| #[trigger] self.sources@.contains_key(k) ==> self.sources@[k].id@ == k
        &&& forall|k: Seq<char>| #[trigger] self.webhooks@.contains_key(k) ==> self.webhooks@[k].id@ == k
        &&& forall|k: Seq<char>| #[trigger] self.deletion_requests@.contains_key(k) ==> self.deletion_requests@[k].id@ == k
    }

    /// The segments of a flow, in order; none if it has none.
    pub open spec fn segs_of(self, flow_id: Seq<char>) -> Seq<StoredSegment> {
        if self.segments().contains_key(flow_id) {
            self.segments()[flow_id]@
        } else {
            Seq::empty()
        }
    }

    /// An empty store with the given storage backend.
    pub fn new(backend: StorageBackend) -> (r: Store)
        ensures
            r.sources() == Map::<Seq<char>, Source>::empty(),
            r.flows() == Map::<Seq<char>, StoredFlow>::empty(),
            r.segments() == Map::<Seq<char>, Vec<StoredSegment>>::empty(),
            r.instances() == Map::<Seq<char>, Vec<UncontrolledInstance>>::empty(),
            r.webhooks() == Map::<Seq<char>, StoredWebhook>::empty(),
            r.deletions() == Map::<Seq<char>, DeletionRequest>::empty(),
            r.events() == Seq::<StoreEvent>::empty(),
            r.backends() == seq![backend],
            r.wf(),
    {
        let mut backends: Vec<StorageBackend> = Vec::new();
        backends.push(backend);
        let r = Store {
            service_info: ServiceInfo::default(),
            storage_backends: backends,
            sources: StrMap::new(),
            flows: StrMap::new(),
            segments: StrMap::new(),
            object_instances: StrMap::new(),
            webhooks: StrMap::new(),
            deletion_requests: StrMap::new(),
            events: Vec::new(),
        };
        assert(r.backends() =~= seq![backend]);
        r
    }

    pub fn get_service_info(&self) -> (r: &ServiceInfo)
        ensures
            *r == self.service(),
    {
        &self.service_info
    }

    /// Replaces the service's restore-time description with a stored one.
    pub fn set_service_info(&mut self, info: ServiceInfo)
        ensures
            final(self).service() == info,
            final(self).sources() == old(self).sources(),
            final(self).flows() == old(self).flows(),
            final(self).segments() == old(self).segments(),
            final(self).webhooks() == old(self).webhooks(),
            final(self).events() == old(self).events(),
    {
        self.service_info = info;
    }

    /// Sets the name and description that the post carries.
    pub fn update_service_info(&mut self, post: ServicePost) -> (r: &ServiceInfo)
        ensures
            final(self).service().name == (if post.name is Some {
                post.name
            } else {
                old(self).service().name
            }),
            final(self).service().description == (if post.description is Some {
                post.description
            } else {
                old(self).service().description
            }),
            final(self).service().service_type == old(self).service().service_type,
            final(self).service().api_version == old(self).service().api_version,
            final(self).service().min_object_timeout == old(self).service().min_object_timeout,
            final(self).service().service_version == old(self).service().service_version,
            final(self).service().event_stream_mechanisms == old(self).service().event_stream_mechanisms,
            final(self).service().min_presigned_url_timeout == old(self).service().min_presigned_url_timeout,
            final(self).sources() == old(self).sources(),
            final(self).flows() == old(self).flows(),
            final(self).segments() == old(self).segments(),
            final(self).webhooks() == old(self).webhooks(),
            final(self).events() == old(self).events(),
            *r == final(self).service(),
    {
        if let Some(name) = post.name {
            self.service_info.name = Some(name);
        }
        if let Some(description) = post.description {
            self.service_info.description = Some(description);
        }
        &self.service_info
    }

    pub fn storage_backends(&self) -> (r: &[StorageBackend])
        ensures
            r@ == self.backends(),
    {
        self.storage_backends.as_slice()
    }

    /// Hands out the events recorded since the last call, oldest first.
    pub fn take_events(&mut self) -> (r: Vec<StoreEvent>)
        ensures
            r@ == old(self).events(),
            final(self).events() == Seq::<StoreEvent>::empty(),
            final(self).sources() == old(self).sources(),
            final(self).flows() == old(self).flows(),
            final(self).segments() == old(self).segments(),
            final(self).instances() == old(self).instances(),
            final(self).webhooks() == old(self).webhooks(),
            final(self).deletions() == old(self).deletions(),
    {
        let mut out: Vec<StoreEvent> = Vec::new();
        std::mem::swap(&mut out, &mut self.events);
        out
    }

    /// Records an event for delivery to the webhooks that hear it.
    pub fn dispatch_event(&mut self, event: StoreEvent)
        ensures
            final(self).events() == old(self).events().push(event),
            final(self).sources() == old(self).sources(),
            final(self).flows() == old(self).flows(),
            final(self).segments() == old(self).segments(),
            final(self).instances() == old(self).instances(),
            final(self).webhooks() == old(self).webhooks(),
            final(self).deletions() == old(self).deletions(),
    {
        self.events.push(event);
    }

    // -- Sources --

    /// Adds a source under its id unless one is there; fills in its
    /// server-managed fields. Records a creation event when it adds.
    fn create_source_if_absent(&mut self, source: Source, now: &str) -> (r: bool)
        requires
            old(self).wf(),
        ensures
            final(self).wf(),
            r == !old(self).sources().contains_key(source.id@),
            r ==> final(self).sources().contains_key(source.id@) && with_defaults(
                source,
                final(self).sources()[source.id@],
                now@,
            ) && final(self).sources() == old(self).sources().insert(
                source.id@,
                final(self).sources()[source.id@],
            ),
            !r ==> final(self).sources() == old(self).sources(),
            r ==> final(self).events().len() == old(self).events().len() + 1
                && final(self).events().take(old(self).events().len() as int) == old(self).events()
                && final(self).events().last() is SourceCreated
                && Store::carries_source(final(self).events().last(), final(self).sources()[source.id@])
                && event_source_id(final(self).events().last()) == Some(source.id@)
                && event_source_collected_by(final(self).events().last()) == Seq::<Seq<char>>::empty(),
            !r ==> final(self).events() == old(self).events(),
            final(self).flows() == old(self).flows(),
            final(self).segments() == old(self).segments(),
            final(self).instances() == old(self).instances(),
            final(self).webhooks() == old(self).webhooks(),
            final(self).deletions() == old(self).deletions(),
            final(self).service() == old(self).service(),
            final(self).backends() == old(self).backends(),
    {
        if self.sources.contains_key(source.id.as_str()) {
            return false;
        }
        let filled = fill_source_defaults(source, now);
        let doc = source_json(&filled);
        let key = filled.id.clone();
        let ghost filled_v = filled;
        self.sources.insert(key, filled);
        let empty: Vec<String> = Vec::new();
        let ev = StoreEvent::SourceCreated { source: doc, source_collected_by: empty };
        assert(event_source_collected_by(ev) =~= Seq::<Seq<char>>::empty());
        self.events.push(ev);
        proof {
            assert(self.sources()[source.id@] == filled_v);
            assert forall|k: Seq<char>| #[trigger] self.sources@.contains_key(k) implies self.sources@[k].id@ == k by {
                if k != source.id@ {
                    assert(old(self).sources@.contains_key(k));
                }
            }
        }
        true
    }

    pub fn get_source(&self, id: &str) -> (r: Option<&Source>)
        ensures
            match r {
                Some(s) => self.sources().contains_key(id@) && *s == self.sources()[id@],
                None => !self.sources().contains_key(id@),
            },
    {
        self.sources.get(id)
    }

    /// The tags of a source: `None` if there is no such source, `Some(None)`
    /// if it has no tags.
    pub fn get_source_tags(&self, id: &str) -> (r: Option<Option<&Tags>>)
        ensures
            match r {
                Some(t) => self.sources().contains_key(id@) && match t {
                    Some(t) => self.sources()[id@].tags == Some(*t),
                    None => self.sources()[id@].tags is None,
                },
                None => !self.sources().contains_key(id@),
            },
    {
        match self.sources.get(id) {
            Some(s) => match &s.tags {
                Some(t) => Some(Some(t)),
                None => Some(None),
            },
            None => None,
        }
    }

    /// A tag value of a source.
    pub fn get_source_tag(&self, id: &str, name: &str) -> (r: Option<&TagValue>)
        ensures
            match r {
                Some(v) => self.sources().contains_key(id@) && (self.sources()[id@].tags matches Some(t)
                    && t@.contains_key(name@) && t@[name@] == *v),
                None => !self.sources().contains_key(id@) || !tags_or_empty(self.sources()[id@].tags).contains_key(name@),
            },
    {
        match self.sources.get(id) {
            Some(s) => match &s.tags {
                Some(t) => t.get(name),
                None => None,
            },
            None => None,
        }
    }

    /// A source event carries the document of the source `s`.
    pub open spec fn carries_source(e: StoreEvent, s: Source) -> bool {
        match e {
            StoreEvent::SourceCreated { source, .. } => source_document(source, s),
            StoreEvent::SourceUpdated { source, .. } => source_document(source, s),
            _ => false,
        }
    }

    /// The change every source edit makes: the source `id` replaced by one
    /// that keeps its identity fields and is stamped updated at `now`, one
    /// update event recorded, nothing else touched.
    pub open spec fn source_edited(old: Store, new: Store, id: Seq<char>, now: Seq<char>) -> bool {
        &&& old.sources().contains_key(id)
        &&& new.sources().contains_key(id)
        &&& new.sources() == old.sources().insert(id, new.sources()[id])
        &&& same_source_identity(new.sources()[id], old.sources()[id])
        &&& opt_str_view(new.sources()[id].updated) == Some(now)
        &&& new.events().len() == old.events().len() + 1
        &&& new.events().take(old.events().len() as int) == old.events()
        &&& new.events().last() is SourceUpdated
        &&& Store::carries_source(new.events().last(), new.sources()[id])
        &&& event_source_id(new.events().last()) == Some(id)
        &&& event_source_collected_by(new.events().last()) == list_or_empty(old.sources()[id].collected_by)
        &&& new.flows() == old.flows()
        &&& new.segments() == old.segments()
        &&& new.instances() == old.instances()
        &&& new.webhooks() == old.webhooks()
        &&& new.deletions() == old.deletions()
        &&& new.service() == old.service()
        &&& new.backends() == old.backends()
    }

    /// A source edit that found no source changes nothing and reports it.
    pub open spec fn source_missing(old: Store, new: Store, id: Seq<char>, r: Result<(), StoreError>) -> bool {
        &&& !old.sources().contains_key(id)
        &&& (r matches Err(StoreError::NotFound(m)) && m@ == not_found_message("Source"@, id))
        &&& new.sources() == old.sources()
        &&& new.flows() == old.flows()
        &&& new.events() == old.events()
        &&& new.segments() == old.segments()
        &&& new.webhooks() == old.webhooks()
    }

    /// Sets a tag on a source.
    pub fn set_source_tag(&mut self, id: &str, name: &str, value: TagValue, stamp: &Stamp) -> (r: Result<(), StoreError>)
        requires
            old(self).wf(),
        ensures
            final(self).wf(),
            r is Ok <==> old(self).sources().contains_key(id@),
            r is Ok ==> Store::source_edited(*old(self), *final(self), id@, stamp.now@)
                && final(self).sources()[id@].label == old(self).sources()[id@].label
                && final(self).sources()[id@].description == old(self).sources()[id@].description
                && (final(self).sources()[id@].tags matches Some(t) && t@ == tags_or_empty(
                old(self).sources()[id@].tags,
            ).insert(name@, value)),
            r is Err ==> Store::source_missing(*old(self), *final(self), id@, r),
    {
        let mut s = match self.take_source(id) {
            Ok(s) => s,
            Err(e) => {
                return Err(e);
            },
        };
        let mut tags = match s.tags {
            Some(t) => t,
            None => Tags::new(),
        };
        tags.insert(name.to_owned(), value);
        s.tags = Some(tags);
        self.store_updated_source(s, stamp.now.as_str());
        proof {
            assert(self.sources() =~= old(self).sources().insert(id@, self.sources()[id@]));
        }
        Ok(())
    }

    /// Removes a tag from a source.
    pub fn delete_source_tag(&mut self, id: &str, name: &str, stamp: &Stamp) -> (r: Result<(), StoreError>)
        requires
            old(self).wf(),
        ensures
            final(self).wf(),
            r is Ok <==> old(self).sources().contains_key(id@),
            r is Ok ==> Store::source_edited(*old(self), *final(self), id@, stamp.now@)
                && final(self).sources()[id@].label == old(self).sources()[id@].label
                && final(self).sources()[id@].description == old(self).sources()[id@].description
                && (old(self).sources()[id@].tags is None ==> final(self).sources()[id@].tags is None)
                && (old(self).sources()[id@].tags matches Some(t0) ==> (final(self).sources()[id@].tags matches Some(t)
                && t@ == t0@.remove(name@))),
            r is Err ==> Store::source_missing(*old(self), *final(self), id@, r),
    {
        let mut s = match self.take_source(id) {
            Ok(s) => s,
            Err(e) => {
                return Err(e);
            },
        };
        let tags = s.tags;
        s.tags = match tags {
            Some(t) => {
                let mut t = t;
                t.remove(name);
                Some(t)
            },
            None => None,
        };
        self.store_updated_source(s, stamp.now.as_str());
        proof {
            assert(self.sources() =~= old(self).sources().insert(id@, self.sources()[id@]));
        }
        Ok(())
    }

    /// Sets or clears a source's label (`None` clears).
    fn edit_source_label(&mut self, id: &str, label: Option<String>, stamp: &Stamp) -> (r: Result<(), StoreError>)
        requires
            old(self).wf(),
        ensures
            final(self).wf(),
            r is Ok <==> old(self).sources().contains_key(id@),
            r is Ok ==> Store::source_edited(*old(self), *final(self), id@, stamp.now@)
                && final(self).sources()[id@].label == label
                && final(self).sources()[id@].description == old(self).sources()[id@].description
                && final(self).sources()[id@].tags == old(self).sources()[id@].tags,
            r is Err ==> Store::source_missing(*old(self), *final(self), id@, r),
    {
        let mut s = match self.take_source(id) {
            Ok(s) => s,
            Err(e) => {
                return Err(e);
            },
        };
        s.label = label;
        self.store_updated_source(s, stamp.now.as_str());
        proof {
            assert(self.sources() =~= old(self).sources().insert(id@, self.sources()[id@]));
        }
        Ok(())
    }

    /// Sets or clears a source's description (`None` clears).
    fn edit_source_description(&mut self, id: &str, description: Option<String>, stamp: &Stamp) -> (r: Result<(), StoreError>)
        requires
            old(self).wf(),
        ensures
            final(self).wf(),
            r is Ok <==> old(self).sources().contains_key(id@),
            r is Ok ==> Store::source_edited(*old(self), *final(self), id@, stamp.now@)
                && final(self).sources()[id@].description == description
                && final(self).sources()[id@].label == old(self).sources()[id@].label
                && final(self).sources()[id@].tags == old(self).sources()[id@].tags,
            r is Err ==> Store::source_missing(*old(self), *final(self), id@, r),
    {
        let mut s = match self.take_source(id) {
            Ok(s) => s,
            Err(e) => {
                return Err(e);
            },
        };
        s.description = description;
        self.store_updated_source(s, stamp.now.as_str());
        proof {
            assert(self.sources() =~= old(self).sources().insert(id@, self.sources()[id@]));
        }
        Ok(())
    }

    /// Sets a source's label.
    pub fn set_source_label(&mut self, id: &str, label: String, stamp: &Stamp) -> (r: Result<(), StoreError>)
        requires
            old(self).wf(),
        ensures
            final(self).wf(),
            r is Ok <==> old(self).sources().contains_key(id@),
            r is Ok ==> Store::source_edited(*old(self), *final(self), id@, stamp.now@)
                && final(self).sources()[id@].label == Some(label)
                && final(self).sources()[id@].description == old(self).sources()[id@].description
                && final(self).sources()[id@].tags == old(self).sources()[id@].tags,
            r is Err ==> Store::source_missing(*old(self), *final(self), id@, r),
    {
        self.edit_source_label(id, Some(label), stamp)
    }

    /// Clears a source's label.
    pub fn delete_source_label(&mut self, id: &str, stamp: &Stamp) -> (r: Result<(), StoreError>)
        requires
            old(self).wf(),
        ensures
            final(self).wf(),
            r is Ok <==> old(self).sources().contains_key(id@),
            r is Ok ==> Store::source_edited(*old(self), *final(self), id@, stamp.now@)
                && final(self).sources()[id@].label is None
                && final(self).sources()[id@].description == old(self).sources()[id@].description
                && final(self).sources()[id@].tags == old(self).sources()[id@].tags,
            r is Err ==> Store::source_missing(*old(self), *final(self), id@, r),
    {
        self.edit_source_label(id, None, stamp)
    }

    /// Sets a source's description.
    pub fn set_source_description(&mut self, id: &str, desc: String, stamp: &Stamp) -> (r: Result<(), StoreError>)
        requires
            old(self).wf(),
        ensures
            final(self).wf(),
            r is Ok <==> old(self).sources().contains_key(id@),
            r is Ok ==> Store::source_edited(*old(self), *final(self), id@, stamp.now@)
                && final(self).sources()[id@].description == Some(desc)
                && final(self).sources()[id@].label == old(self).sources()[id@].label
                && final(self).sources()[id@].tags == old(self).sources()[id@].tags,
            r is Err ==> Store::source_missing(*old(self), *final(self), id@, r),
    {
        self.edit_source_description(id, Some(desc), stamp)
    }

    /// Clears a source's description.
    pub fn delete_source_description(&mut self, id: &str, stamp: &Stamp) -> (r: Result<(), StoreError>)
        requires
            old(self).wf(),
        ensures
            final(self).wf(),
            r is Ok <==> old(self).sources().contains_key(id@),
            r is Ok ==> Store::source_edited(*old(self), *final(self), id@, stamp.now@)
                && final(self).sources()[id@].description is None
                && final(self).sources()[id@].label == old(self).sources()[id@].label
                && final(self).sources()[id@].tags == old(self).sources()[id@].tags,
            r is Err ==> Store::source_missing(*old(self), *final(self), id@, r),
    {
        self.edit_source_description(id, None, stamp)
    }

    /// The label of a source: `None` if there is no such source.
    pub fn get_source_label(&self, id: &str) -> (r: Option<&Option<String>>)
        ensures
            match r {
                Some(l) => self.sources().contains_key(id@) && *l == self.sources()[id@].label,
                None => !self.sources().contains_key(id@),
            },
    {
        match self.sources.get(id) {
            Some(s) => Some(&s.label),
            None => None,
        }
    }

    /// The description of a source: `None` if there is no such source.
    pub fn get_source_description(&self, id: &str) -> (r: Option<&Option<String>>)
        ensures
            match r {
                Some(d) => self.sources().contains_key(id@) && *d == self.sources()[id@].description,
                None => !self.sources().contains_key(id@),
            },
    {
        match self.sources.get(id) {
            Some(s) => Some(&s.description),
            None => None,
        }
    }

    // -- Webhooks --

    /// The webhooks whose tags pass the filters, in id order.
    pub fn list_webhooks(&self, tag_filters: &TagFilters) -> (r: Vec<&StoredWebhook>)
        requires
            self.wf(),
        ensures
            forall|i: int, j: int| 0 <= i < j < r@.len() ==> crate::order::seq_lt(r@[i].id@, r@[j].id@),
            forall|i: int| 0 <= i < r@.len() ==> self.webhooks().contains_key((#[trigger] r@[i]).id@)
                && self.webhooks()[r@[i].id@] == *r@[i] && tag_filters_pass(*tag_filters, tags_or_empty(r@[i].tags)),
            forall|k: Seq<char>| #[trigger] self.webhooks().contains_key(k) && tag_filters_pass(
                *tag_filters,
                tags_or_empty(self.webhooks()[k].tags),
            ) ==> exists|i: int| 0 <= i < r@.len() && r@[i].id@ == k,
    {
        let n = self.webhooks.len();
        let ghost ks = self.webhooks.keys();
        let mut out: Vec<&StoredWebhook> = Vec::new();
        let mut i: usize = 0;
        while i < n
            invariant
                i <= n,
                n == ks.len(),
                ks == self.webhooks.keys(),
                ordered_keys_of(ks, self.webhooks@),
                self.wf(),
                forall|a: int| 0 <= a < out@.len() ==> exists|j: int| 0 <= j < i && ks[j] == (#[trigger] out@[a]).id@,
                forall|a: int, b: int| 0 <= a < b < out@.len() ==> crate::order::seq_lt(out@[a].id@, out@[b].id@),
                forall|a: int| 0 <= a < out@.len() ==> self.webhooks().contains_key((#[trigger] out@[a]).id@)
                    && self.webhooks()[out@[a].id@] == *out@[a] && tag_filters_pass(*tag_filters, tags_or_empty(out@[a].tags)),
                forall|j: int| 0 <= j < i && tag_filters_pass(*tag_filters, tags_or_empty(self.webhooks()[ks[j]].tags))
                    ==> exists|a: int| 0 <= a < out@.len() && (#[trigger] out@[a]).id@ == ks[j],
            decreases n - i,
        {
            let (k, w) = self.webhooks.entry_at(i);
            let ok = match &w.tags {
                Some(t) => tag_filters.matches(t),
                None => {
                    let empty = Tags::new();
                    let r = tag_filters.matches(&empty);
                    assert(tags_or_empty(w.tags) == empty@);
                    r
                },
            };
            proof {
                assert(w.id@ == ks[i as int]);
            }
            if ok {
                let ghost before = out@;
                out.push(w);
                proof {
                    assert forall|a: int, b: int| 0 <= a < b < out@.len() implies crate::order::seq_lt(
                        out@[a].id@,
                        out@[b].id@,
                    ) by {
                        if b == out@.len() - 1 {
                            assert(out@[a] == before[a]);
                            let j = choose|j: int| 0 <= j < i && ks[j] == out@[a].id@;
                        } else {
                            assert(out@[a] == before[a] && out@[b] == before[b]);
                        }
                    }
                    assert forall|a: int| 0 <= a < out@.len() implies exists|j: int| 0 <= j < i + 1 && ks[j]
                        == (#[trigger] out@[a]).id@ by {
                        if a < before.len() {
                            assert(out@[a] == before[a]);
                            let j = choose|j: int| 0 <= j < i && ks[j] == before[a].id@;
                            assert(ks[j] == out@[a].id@);
                        } else {
                            assert(ks[i as int] == out@[a].id@);
                        }
                    }
                    assert forall|j: int| 0 <= j < i + 1 && tag_filters_pass(*tag_filters, tags_or_empty(self.webhooks()[ks[j]].tags))
                        implies exists|a: int| 0 <= a < out@.len() && (#[trigger] out@[a]).id@ == ks[j] by {
                        if j < i {
                            let a = choose|a: int| 0 <= a < before.len() && before[a].id@ == ks[j];
                            assert(out@[a] == before[a]);
                        } else {
                            assert(out@[before.len() as int].id@ == ks[j]);
                        }
                    }
                }
            }
            i = i + 1;
        }
        out
    }

    /// A webhook by id.
    pub fn get_webhook(&self, id: &str) -> (r: Result<&StoredWebhook, StoreError>)
        ensures
            match r {
                Ok(w) => self.webhooks().contains_key(id@) && *w == self.webhooks()[id@],
                Err(e) => !self.webhooks().contains_key(id@) && (e matches StoreError::NotFound(m) && m@
                    == not_found_message("Webhook"@, id@)),
            },
    {
        match self.webhooks.get(id) {
            Some(w) => Ok(w),
            None => Err(not_found("Webhook", id)),
        }
    }

    /// Registers a webhook under the fresh id of the stamp; a status other
    /// than created or disabled becomes created. Returns the stored webhook.
    pub fn create_webhook(&mut self, webhook: StoredWebhook, stamp: &Stamp) -> (r: &StoredWebhook)
        requires
            old(self).wf(),
        ensures
            final(self).wf(),
            r.id@ == stamp.id@,
            r.status == initial_status(webhook.status),
            r.url == webhook.url && r.events == webhook.events && r.api_key_name == webhook.api_key_name
                && r.api_key_value == webhook.api_key_value && r.flow_ids == webhook.flow_ids
                && r.source_ids == webhook.source_ids && r.flow_collected_by_ids == webhook.flow_collected_by_ids
                && r.source_collected_by_ids == webhook.source_collected_by_ids
                && r.accept_get_urls == webhook.accept_get_urls && r.accept_storage_ids == webhook.accept_storage_ids
                && r.presigned == webhook.presigned && r.verbose_storage == webhook.verbose_storage
                && r.tags == webhook.tags && r.error == webhook.error,
            final(self).webhooks() == old(self).webhooks().insert(stamp.id@, *r),
            final(self).sources() == old(self).sources(),
            final(self).flows() == old(self).flows(),
            final(self).segments() == old(self).segments(),
            final(self).instances() == old(self).instances(),
            final(self).deletions() == old(self).deletions(),
            final(self).events() == old(self).events(),
    {
        let mut w = webhook;
        w.id = stamp.id.clone();
        w.status = normalize_initial_status(w.status);
        let ghost wv = w;
        self.webhooks.insert(stamp.id.clone(), w);
        proof {
            assert forall|k: Seq<char>| #[trigger] self.webhooks@.contains_key(k) implies self.webhooks@[k].id@ == k by {
                if k != stamp.id@ {
                    assert(old(self).webhooks@.contains_key(k));
                }
            }
        }
        let r = self.webhooks.get(stamp.id.as_str());
        match r {
            Some(w) => w,
            None => vstd::pervasive::unreached(),
        }
    }

    /// Replaces a webhook's registration. The status change must be one a
    /// client may make; the key value is kept when the update has none; the
    /// error is cleared when the webhook is set back to created.
    pub fn update_webhook(&mut self, id: &str, update: StoredWebhook) -> (r: Result<&StoredWebhook, StoreError>)
        requires
            old(self).wf(),
        ensures
            final(self).wf(),
            !old(self).webhooks().contains_key(id@) ==> (r matches Err(StoreError::NotFound(m)) && m@
                == not_found_message("Webhook"@, id@)),
            old(self).webhooks().contains_key(id@) && !transition_allowed(old(self).webhooks()[id@].status, update.status)
                ==> (r matches Err(StoreError::BadRequest(m)) && m@ == (if old(self).webhooks()[id@].status
                == WebhookStatus::Error && update.status == WebhookStatus::Disabled {
                error_to_disabled_message()
            } else {
                invalid_transition_message(old(self).webhooks()[id@].status, update.status)
            })),
            r is Ok <==> old(self).webhooks().contains_key(id@) && transition_allowed(
                old(self).webhooks()[id@].status,
                update.status,
            ),
            r is Err ==> final(self).webhooks() == old(self).webhooks(),
            r matches Ok(w) ==> final(self).webhooks() == old(self).webhooks().insert(id@, *w) && w.id@ == id@
                && w.status == update.status && w.url == update.url && w.events == update.events
                && w.api_key_name == update.api_key_name && w.flow_ids == update.flow_ids
                && w.source_ids == update.source_ids && w.flow_collected_by_ids == update.flow_collected_by_ids
                && w.source_collected_by_ids == update.source_collected_by_ids
                && w.accept_get_urls == update.accept_get_urls && w.accept_storage_ids == update.accept_storage_ids
                && w.presigned == update.presigned && w.verbose_storage == update.verbose_storage
                && w.tags == update.tags
                && opt_str_view(w.api_key_value) == (if update.api_key_value is Some {
                opt_str_view(update.api_key_value)
            } else {
                opt_str_view(old(self).webhooks()[id@].api_key_value)
            }) && w.error == (if update.status == WebhookStatus::Created {
                None
            } else {
                update.error
            }),
            final(self).sources() == old(self).sources(),
            final(self).flows() == old(self).flows(),
            final(self).segments() == old(self).segments(),
            final(self).instances() == old(self).instances(),
            final(self).deletions() == old(self).deletions(),
            final(self).events() == old(self).events(),
    {
        let (status, key_value) = match self.webhooks.get(id) {
            Some(existing) => (existing.status, crate::error::copy_opt_str(&existing.api_key_value)),
            None => {
                return Err(not_found("Webhook", id));
            },
        };
        match check_status_transition(status, update.status) {
            Ok(()) => {},
            Err(e) => {
                return Err(e);
            },
        }
        let mut updated = update;
        updated.id = id.to_owned();
        if updated.api_key_value.is_none() {
            updated.api_key_value = key_value;
        }
        if updated.status == WebhookStatus::Created {
            updated.error = None;
        }
        let ghost uv = updated;
        self.webhooks.insert(id.to_owned(), updated);
        proof {
            assert forall|k: Seq<char>| #[trigger] self.webhooks@.contains_key(k) implies self.webhooks@[k].id@ == k by {
                if k != id@ {
                    assert(old(self).webhooks@.contains_key(k));
                }
            }
        }
        match self.webhooks.get(id) {
            Some(w) => Ok(w),
            None => vstd::pervasive::unreached(),
        }
    }

    /// Removes a webhook.
    pub fn delete_webhook(&mut self, id: &str) -> (r: Result<(), StoreError>)
        requires
            old(self).wf(),
        ensures
            final(self).wf(),
            r is Ok <==> old(self).webhooks().contains_key(id@),
            r matches Err(e) ==> (e matches StoreError::NotFound(m) && m@ == not_found_message("Webhook"@, id@)),
            final(self).webhooks() == old(self).webhooks().remove(id@),
            final(self).sources() == old(self).sources(),
            final(self).flows() == old(self).flows(),
            final(self).segments() == old(self).segments(),
            final(self).instances() == old(self).instances(),
            final(self).deletions() == old(self).deletions(),
            final(self).events() == old(self).events(),
    {
        let removed = self.webhooks.remove(id);
        proof {
            assert forall|k: Seq<char>| #[trigger] self.webhooks@.contains_key(k) implies self.webhooks@[k].id@ == k by {
                assert(old(self).webhooks@.contains_key(k));
            }
        }
        match removed {
            Some(_) => Ok(()),
            None => Err(not_found("Webhook", id)),
        }
    }

    /// The registrations that hear an event, in id order.
    pub fn webhooks_hearing(&self, event: &StoreEvent) -> (r: Vec<&StoredWebhook>)
        requires
            self.wf(),
        ensures
            forall|i: int| 0 <= i < r@.len() ==> self.webhooks().contains_key((#[trigger] r@[i]).id@)
                && self.webhooks()[r@[i].id@] == *r@[i] && hears(*r@[i], *event),
            forall|k: Seq<char>| #[trigger] self.webhooks().contains_key(k) && hears(self.webhooks()[k], *event)
                ==> exists|i: int| 0 <= i < r@.len() && r@[i].id@ == k,
    {
        let n = self.webhooks.len();
        let ghost ks = self.webhooks.keys();
        let mut out: Vec<&StoredWebhook> = Vec::new();
        let mut i: usize = 0;
        while i < n
            invariant
                i <= n,
                n == ks.len(),
                ks == self.webhooks.keys(),
                ordered_keys_of(ks, self.webhooks@),
                self.wf(),
                forall|a: int| 0 <= a < out@.len() ==> self.webhooks().contains_key((#[trigger] out@[a]).id@)
                    && self.webhooks()[out@[a].id@] == *out@[a] && hears(*out@[a], *event),
                forall|j: int| 0 <= j < i && hears(self.webhooks()[ks[j]], *event)
                    ==> exists|a: int| 0 <= a < out@.len() && (#[trigger] out@[a]).id@ == ks[j],
            decreases n - i,
        {
            let (k, w) = self.webhooks.entry_at(i);
            proof {
                assert(w.id@ == ks[i as int]);
            }
            if webhook_matches_event(w, event) {
                let ghost before = out@;
                out.push(w);
                proof {
                    assert forall|j: int| 0 <= j < i + 1 && hears(self.webhooks()[ks[j]], *event)
                        implies exists|a: int| 0 <= a < out@.len() && (#[trigger] out@[a]).id@ == ks[j] by {
                        if j < i {
                            let a = choose|a: int| 0 <= a < before.len() && before[a].id@ == ks[j];
                            assert(out@[a] == before[a]);
                        } else {
                            assert(out@[before.len() as int].id@ == ks[j]);
                        }
                    }
                }
            }
            i = i + 1;
        }
        out
    }

    /// Records the outcome of delivering an event to a webhook: a disabled
    /// one stays so, a success moves created to started, a failure moves
    /// to error. An unknown id changes nothing.
    pub fn record_delivery(&mut self, id: &str, success: bool)
        requires
            old(self).wf(),
        ensures
            final(self).wf(),
            !old(self).webhooks().contains_key(id@) ==> final(self).webhooks() == old(self).webhooks(),
            old(self).webhooks().contains_key(id@) ==> final(self).webhooks().contains_key(id@)
                && final(self).webhooks() == old(self).webhooks().insert(id@, final(self).webhooks()[id@])
                && final(self).webhooks()[id@].status == status_after_delivery(old(self).webhooks()[id@].status, success)
                && final(self).webhooks()[id@].url == old(self).webhooks()[id@].url
                && final(self).webhooks()[id@].events == old(self).webhooks()[id@].events
                && final(self).webhooks()[id@].error == old(self).webhooks()[id@].error,
            final(self).sources() == old(self).sources(),
            final(self).flows() == old(self).flows(),
            final(self).segments() == old(self).segments(),
            final(self).events() == old(self).events(),
    {
        proof {
            if old(self).webhooks@.contains_key(id@) {
                assert(old(self).webhooks@[id@].id@ == id@);
            }
        }
        match self.webhooks.remove(id) {
            Some(w) => {
                let mut w = w;
                w.status = next_status_after_delivery(w.status, success);
                let ghost wv = w;
                self.webhooks.insert(id.to_owned(), w);
                proof {
                    assert(self.webhooks@[id@] == wv);
                    assert(self.webhooks@ =~= old(self).webhooks@.insert(id@, wv));
                    assert forall|k: Seq<char>| #[trigger] self.webhooks@.contains_key(k) implies self.webhooks@[k].id@ == k by {
                        if k != id@ {
                            assert(old(self).webhooks@.contains_key(k));
                        }
                    }
                }
            },
            None => {},
        }
    }

    // -- Flows --

    pub fn get_flow(&self, id: &str) -> (r: Option<&Json>)
        ensures
            match r {
                Some(d) => self.flows().contains_key(id@) && *d == self.flows()[id@].document,
                None => !self.flows().contains_key(id@),
            },
    {
        match self.flows.get(id) {
            Some(f) => Some(&f.document),
            None => None,
        }
    }

    /// The collection memberships after a flow's collection changed from the
    /// children `old_children` to the items `items` (none: no collection):
    /// each old child flow leaves the parent flow's collections and each new
    /// one joins; the parent's source gets the children's sources (with
    /// their roles) as its collection, or none if there are none; the old
    /// children's sources leave it and the new ones join. Only flows and
    /// sources change.
    pub open spec fn links_synced(
        old: Store,
        new: Store,
        parent_flow_id: Seq<char>,
        parent_source_id: Seq<char>,
        old_children: Seq<Seq<char>>,
        items: Option<Seq<(Seq<char>, Seq<char>)>>,
    ) -> bool {
        &&& new.flows().dom() == old.flows().dom()
        &&& forall|k: Seq<char>| #[trigger] old.flows().contains_key(k) ==> {
            let remove = old_children.contains(k);
            let add = match items {
                Some(items) => items.map_values(|p: (Seq<char>, Seq<char>)| p.0).contains(k),
                None => false,
            };
            if remove || add {
                relinked(old.flows()[k], new.flows()[k], parent_flow_id, remove, add)
            } else {
                new.flows()[k] == old.flows()[k]
            }
        }
        &&& new.sources().dom() == old.sources().dom()
        &&& forall|k: Seq<char>| #[trigger] old.sources().contains_key(k) ==> {
            let source_items = match items {
                Some(items) => {
                    let si = source_items_of(old.flows(), items);
                    if si.len() == 0 {
                        None
                    } else {
                        Some(si)
                    }
                },
                None => None,
            };
            let ids = match source_items {
                Some(si) => si.map_values(|p: (Seq<char>, Seq<char>)| p.0),
                None => Seq::empty(),
            };
            source_relinked(
                old.sources()[k],
                new.sources()[k],
                parent_source_id,
                source_ids_of(old.flows(), old_children).contains(k),
                ids.contains(k) && k != parent_source_id,
                k == parent_source_id,
                source_items,
            )
        }
    }

    /// Updates collection memberships after a flow's collection changes:
    /// the old child flows leave the parent flow's collections and the new
    /// ones join; the parent's source gets the children's sources (with
    /// their roles) as its collection, or none if there are none; the old
    /// children's sources leave it and the new ones join.
    fn apply_flow_collection_sync(
        &mut self,
        parent_flow_id: &str,
        parent_source_id: &str,
        old_child_flow_ids: &Vec<String>,
        new_collection_items: Option<Vec<(String, String)>>,
    )
        requires
            old(self).wf(),
        ensures
            final(self).wf(),
            Store::links_synced(
                *old(self),
                *final(self),
                parent_flow_id@,
                parent_source_id@,
                string_views(old_child_flow_ids@),
                match new_collection_items {
                    Some(items) => Some(pair_views(items@)),
                    None => None,
                },
            ),
            final(self).segments() == old(self).segments(),
            final(self).instances() == old(self).instances(),
            final(self).webhooks() == old(self).webhooks(),
            final(self).deletions() == old(self).deletions(),
            final(self).events() == old(self).events(),
            final(self).service() == old(self).service(),
            final(self).backends() == old(self).backends(),
    {
        let (source_items, new_child_flow_ids) = match &new_collection_items {
            Some(items) => {
                let mut ids: Vec<String> = Vec::new();
                let mut i: usize = 0;
                while i < items.len()
                    invariant
                        i <= items@.len(),
                        ids@.len() == i,
                        forall|j: int| 0 <= j < i ==> #[trigger] ids@[j]@ == items@[j].0@,
                    decreases items@.len() - i,
                {
                    ids.push(items[i].0.clone());
                    i = i + 1;
                }
                assert(string_views(ids@) =~= pair_views(items@).map_values(|p: (Seq<char>, Seq<char>)| p.0));
                let si = build_source_collection_items(&self.flows, items);
                let si_opt = if si.len() == 0 {
                    None
                } else {
                    Some(si)
                };
                (si_opt, ids)
            },
            None => {
                let ids: Vec<String> = Vec::new();
                (None, ids)
            },
        };
        let old_source_child_ids = resolve_flow_ids_to_source_ids(&self.flows, old_child_flow_ids);
        proof {
            if new_collection_items is None {
                assert(string_views(new_child_flow_ids@) =~= Seq::<Seq<char>>::empty());
            }
            match &source_items {
                Some(si) => {
                    assert(item_views(si@).map_values(|p: (Seq<char>, Seq<char>)| p.0) =~= si@.map_values(
                        |c: CollectionItem| c.id@,
                    ));
                },
                None => {},
            }
        }
        let ghost si_v = opt_item_views(source_items);
        relink_children(&mut self.flows, old_child_flow_ids, &new_child_flow_ids, parent_flow_id);
        sync_source_collection(&mut self.sources, parent_source_id, source_items, &old_source_child_ids);
        proof {
            assert forall|k: Seq<char>| #[trigger] self.sources@.contains_key(k) implies self.sources@[k].id@ == k by {
                assert(old(self).sources@.contains_key(k));
            }
        }
    }

    /// The id a flow document names.
    pub open spec fn put_id(doc: Json) -> Seq<char> {
        text_member(doc, "id"@)->0
    }

    /// A put is refused because the flow it replaces is read-only and the
    /// document does not turn that off.
    pub open spec fn put_read_only_refused(self, doc: Json) -> bool {
        &&& self.flows().contains_key(Store::put_id(doc))
        &&& self.flows()[Store::put_id(doc)].core.read_only
        &&& json_bool(json_get(doc, "read_only"@)) != Some(false)
    }

    /// A flow document whose tags are set but are not a map of names to a
    /// string or an array of strings.
    pub open spec fn put_tags_invalid(doc: Json) -> bool {
        &&& json_get(doc, "tags"@) matches Some(t)
        &&& t != Json::Null
        &&& !(t matches Json::Object(m) && crate::docs::members_are_tags(*m))
    }

    /// The server-managed fields a put keeps from the flow it replaces.
    pub open spec fn put_kept(self, id: Seq<char>) -> Option<(Option<Seq<char>>, Option<Seq<char>>, Option<Seq<char>>)> {
        if self.flows().contains_key(id) {
            let c = self.flows()[id].core;
            Some((opt_str_view(c.created), opt_str_view(c.segments_updated), opt_str_view(c.created_by)))
        } else {
            None
        }
    }

    /// `d` is the document a put stores for the client document `doc`.
    pub open spec fn put_document(
        doc: Json,
        d: Json,
        kept: Option<(Option<Seq<char>>, Option<Seq<char>>, Option<Seq<char>>)>,
        now: Seq<char>,
        version: Seq<char>,
    ) -> bool {
        &&& d is Object
        &&& server_fields_set(d, kept, now, version)
        &&& forall|k: Seq<char>| !server_managed(k) ==> #[trigger] json_get(d, k) == json_get(doc, k)
    }

    /// A put involves collections: the new document lists child flows, or
    /// the flow it replaces did.
    pub open spec fn put_touches_collections(self, doc: Json) -> bool {
        ||| json_get(doc, "flow_collection"@) is Some
        ||| (self.flows().contains_key(Store::put_id(doc)) && child_ids_of(self.flows()[Store::put_id(doc)].core).len() > 0)
    }

    /// The children of the collection of the flow a put replaces, if any.
    pub open spec fn put_old_children(self, id: Seq<char>) -> Seq<Seq<char>> {
        if self.flows().contains_key(id) {
            child_ids_of(self.flows()[id].core)
        } else {
            Seq::empty()
        }
    }

    /// The collection items a flow document lists, when it has a collection.
    pub open spec fn doc_items(doc: Json) -> Option<Seq<(Seq<char>, Seq<char>)>> {
        match json_get(doc, "flow_collection"@) {
            Some(v) => Some(collection_items_of(v)),
            None => None,
        }
    }

    /// A source created for a flow: the flow's source id and format, no
    /// label, description or collections, empty tags, the server as its
    /// creator and updater, and both times `now`.
    pub open spec fn put_source(s: Source, id: Seq<char>, format: Seq<char>, now: Seq<char>) -> bool {
        &&& s.id@ == id
        &&& s.format@ == format
        &&& s.label is None
        &&& s.description is None
        &&& (s.tags matches Some(t) && t@ == Map::<Seq<char>, TagValue>::empty())
        &&& opt_str_view(s.created_by) == Some("server"@)
        &&& opt_str_view(s.updated_by) == Some("server"@)
        &&& opt_str_view(s.created) == Some(now)
        &&& opt_str_view(s.updated) == Some(now)
        &&& s.source_collection is None
        &&& s.collected_by is None
    }

    /// `mid` is `old` with a put's flow stored and its source present,
    /// before the collection memberships follow.
    pub open spec fn put_stored(old: Store, mid: Store, doc: Json, now: Seq<char>, version: Seq<char>) -> bool {
        let id = Store::put_id(doc);
        let sid = text_member(doc, "source_id"@)->0;
        &&& mid.flows().contains_key(id)
        &&& mid.flows() == old.flows().insert(id, mid.flows()[id])
        &&& Store::put_document(doc, mid.flows()[id].document, old.put_kept(id), now, version)
        &&& core_read_from(mid.flows()[id].core, mid.flows()[id].document)
        &&& mid.sources().contains_key(sid)
        &&& (old.sources().contains_key(sid) ==> mid.sources() == old.sources())
        &&& (!old.sources().contains_key(sid) ==> mid.sources() == old.sources().insert(sid, mid.sources()[sid])
            && Store::put_source(mid.sources()[sid], sid, text_member(doc, "format"@)->0, now))
    }

    /// Creates or replaces a flow. The document must follow the flow rules;
    /// a read-only flow is only replaced by a document that turns read-only
    /// off; tags must be a map of strings or string arrays. The stored
    /// document gets the server-managed fields; its source is created if
    /// missing; collection memberships follow its flow collection; a
    /// created or updated event is recorded. Returns whether the flow was
    /// created and, if so, the stored document.
    pub fn put_flow(&mut self, doc: Json, stamp: &Stamp) -> (r: Result<(bool, Option<Json>), StoreError>)
        requires
            old(self).wf(),
        ensures
            final(self).wf(),
            flow_doc_error(doc) matches Some(m) ==> (r matches Err(StoreError::BadRequest(x)) && x@ == m),
            flow_doc_error(doc) is None && old(self).put_read_only_refused(doc) ==> r matches Err(StoreError::ReadOnly),
            flow_doc_error(doc) is None && !old(self).put_read_only_refused(doc) && Store::put_tags_invalid(doc)
                ==> (r matches Err(StoreError::BadRequest(x)) && x@ == invalid_tags_message()),
            r is Ok <==> flow_doc_error(doc) is None && !old(self).put_read_only_refused(doc) && !Store::put_tags_invalid(doc),
            r is Err ==> final(self).flows() == old(self).flows() && final(self).sources() == old(self).sources()
                && final(self).events() == old(self).events(),
            r matches Ok((created, resp)) ==> {
                let id = Store::put_id(doc);
                let sid = text_member(doc, "source_id"@)->0;
                &&& created == !old(self).flows().contains_key(id)
                &&& resp is Some <==> created
                &&& (resp matches Some(d) ==> Store::put_document(doc, d, None, stamp.now@, stamp.id@))
                &&& final(self).flows().contains_key(id)
                &&& final(self).flows().dom() == old(self).flows().dom().insert(id)
                &&& final(self).sources().contains_key(sid)
                &&& final(self).sources().dom() == old(self).sources().dom().insert(sid)
                &&& final(self).events().len() > old(self).events().len()
                &&& final(self).events().take(old(self).events().len() as int) == old(self).events()
                &&& (if created { final(self).events().last() is FlowCreated } else { final(self).events().last() is FlowUpdated })
                &&& crate::webhook::event_source_id(final(self).events().last()) == Some(sid)
                &&& crate::webhook::event_flow_id(final(self).events().last()) == Some(id)
                &&& exists|mid: Store| #[trigger] Store::put_stored(*old(self), mid, doc, stamp.now@, stamp.id@) && if old(self).put_touches_collections(doc) {
                    Store::links_synced(mid, *final(self), id, sid, old(self).put_old_children(id), Store::doc_items(doc))
                } else {
                    final(self).flows() == mid.flows() && final(self).sources() == mid.sources()
                }
                &&& (!old(self).put_touches_collections(doc) ==> {
                    &&& final(self).flows() == old(self).flows().insert(id, final(self).flows()[id])
                    &&& Store::put_document(doc, final(self).flows()[id].document, old(self).put_kept(id), stamp.now@, stamp.id@)
                    &&& core_read_from(final(self).flows()[id].core, final(self).flows()[id].document)
                    &&& (old(self).sources().contains_key(sid) ==> final(self).sources() == old(self).sources())
                })
            },
            final(self).segments() == old(self).segments(),
            final(self).instances() == old(self).instances(),
            final(self).webhooks() == old(self).webhooks(),
            final(self).deletions() == old(self).deletions(),
    {
        let (id, source_id, format) = match validate_flow_document(&doc) {
            Ok(v) => v,
            Err(e) => {
                return Err(e);
            },
        };
        let (prev, old_fc_child_ids) = match self.flows.get(id.as_str()) {
            Some(existing) => {
                if existing.core.read_only && doc.get_bool("read_only") != Some(false) {
                    return Err(StoreError::ReadOnly);
                }
                let kept = (
                    crate::error::copy_opt_str(&existing.core.created),
                    crate::error::copy_opt_str(&existing.core.segments_updated),
                    crate::error::copy_opt_str(&existing.core.created_by),
                );
                (Some(kept), extract_collection_child_ids_from_core(&existing.core))
            },
            None => {
                let none: Vec<String> = Vec::new();
                assert(string_views(none@) =~= Seq::<Seq<char>>::empty());
                (None, none)
            },
        };
        let is_create = prev.is_none();
        let ghost kept_v = old(self).put_kept(id@);
        let d = set_server_fields(doc, prev, stamp.now.as_str(), stamp.id.as_str());
        proof {
            crate::flowdoc::lemma_server_keys_distinct();
            reveal_strlit("tags");
            reveal_strlit("source_id");
            reveal_strlit("format");
            reveal_strlit("flow_collection");
            reveal_strlit("id");
            assert("source_id"@[0] == 's');
            assert(!server_managed("tags"@));
            assert(!server_managed("source_id"@));
            assert(!server_managed("format"@));
            assert(!server_managed("id"@));
            assert(!server_managed("flow_collection"@));
            assert(json_get(d, "tags"@) == json_get(doc, "tags"@));
            assert(json_get(d, "id"@) == json_get(doc, "id"@));
            assert(json_get(d, "source_id"@) == json_get(doc, "source_id"@));
            assert(json_get(d, "format"@) == json_get(doc, "format"@));
            assert(json_get(d, "flow_collection"@) == json_get(doc, "flow_collection"@));
        }
        match d.get("tags") {
            Some(t) => {
                let valid = match t {
                    Json::Null => true,
                    _ => crate::docs::tags_from_json(t).is_some(),
                };
                if !valid {
                    return Err(StoreError::BadRequest(String::from_str(
                        "Invalid tags: expected a map from names to a string or an array of strings",
                    )));
                }
            },
            None => {},
        }
        let core = match flow_core_from_document(&d) {
            Some(c) => c,
            None => {
                return vstd::pervasive::unreached();
            },
        };
        let response = if is_create {
            Some(d.copy())
        } else {
            None
        };
        let event_doc = d.copy();
        let flow_cb = strings_or_empty(&core.collected_by);
        let fc_items = match &core.flow_collection {
            Some(v) => Some(extract_collection_items(v)),
            None => None,
        };
        let ghost stored = StoredFlow { core, document: d };
        self.flows.insert(id.clone(), StoredFlow { core, document: d });
        let ghost after_insert = *self;
        let new_source = Source {
            id: source_id.clone(),
            format,
            label: None,
            description: None,
            tags: None,
            created_by: Some("server".to_owned()),
            updated_by: Some("server".to_owned()),
            created: None,
            updated: None,
            source_collection: None,
            collected_by: None,
        };
        let ghost new_source_v = new_source;
        self.create_source_if_absent(new_source, stamp.now.as_str());
        let ghost after_source = *self;
        proof {
            reveal_strlit("server");
            reveal_strlit("flow_collection");
            if !old(self).sources().contains_key(source_id@) {
                assert(Store::put_source(after_source.sources()[source_id@], source_id@, text_member(doc, "format"@)->0, stamp.now@));
            }
            assert(Store::put_stored(*old(self), after_source, doc, stamp.now@, stamp.id@));
            assert(string_views(old_fc_child_ids@) == old(self).put_old_children(id@));
            if fc_items is Some {
                assert(pair_views(fc_items->0@) =~= collection_items_of(json_get(doc, "flow_collection"@)->0));
            }
        }
        let ghost fc_v = if fc_items is Some {
            Some(pair_views(fc_items->0@))
        } else {
            None
        };
        assert(fc_v == Store::doc_items(doc));
        if fc_items.is_some() || old_fc_child_ids.len() > 0 {
            self.apply_flow_collection_sync(id.as_str(), source_id.as_str(), &old_fc_child_ids, fc_items);
        }
        let ghost after_links = *self;
        let source_cb = match self.sources.get(source_id.as_str()) {
            Some(src) => strings_or_empty(&src.collected_by),
            None => Vec::new(),
        };
        let ev = if is_create {
            StoreEvent::FlowCreated {
                flow: event_doc,
                source_id: source_id.clone(),
                flow_collected_by: flow_cb,
                source_collected_by: source_cb,
            }
        } else {
            StoreEvent::FlowUpdated {
                flow: event_doc,
                source_id: source_id.clone(),
                flow_collected_by: flow_cb,
                source_collected_by: source_cb,
            }
        };
        self.events.push(ev);
        proof {
            if old(self).put_touches_collections(doc) {
                assert(Store::links_synced(after_source, *self, id@, source_id@, old(self).put_old_children(id@), Store::doc_items(doc)));
            } else {
                assert(old_fc_child_ids@.len() == 0);
                assert(fc_items is None);
            }
        }
        Ok((is_create, response))
    }

    // -- Segments --

    /// A flow that exists and is writable, with a container when one is
    /// required; gives its container.
    fn require_writable_flow(&self, flow_id: &str, require_container: bool) -> (r: Result<Option<String>, StoreError>)
        ensures
            !self.flows().contains_key(flow_id@) ==> (r matches Err(StoreError::NotFound(m)) && m@
                == not_found_message("Flow"@, flow_id@)),
            self.flows().contains_key(flow_id@) && self.flows()[flow_id@].core.read_only ==> r matches Err(
                StoreError::ReadOnly,
            ),
            self.flows().contains_key(flow_id@) && !self.flows()[flow_id@].core.read_only && require_container
                && self.flows()[flow_id@].core.container is None ==> (r matches Err(StoreError::BadRequest(m))
                && m@ == "Flow must have a container set"@),
            r is Ok <==> self.flow_writable(flow_id@, require_container),
            r matches Ok(c) ==> c == self.flows()[flow_id@].core.container,
    {
        match self.flows.get(flow_id) {
            Some(f) => {
                if f.core.read_only {
                    return Err(StoreError::ReadOnly);
                }
                if require_container && f.core.container.is_none() {
                    return Err(StoreError::BadRequest(String::from_str("Flow must have a container set")));
                }
                Ok(crate::error::copy_opt_str(&f.core.container))
            },
            None => Err(not_found("Flow", flow_id)),
        }
    }

    /// The flow exists, is not read-only, and has a container if one is required.
    pub open spec fn flow_writable(self, flow_id: Seq<char>, require_container: bool) -> bool {
        &&& self.flows().contains_key(flow_id)
        &&& !self.flows()[flow_id].core.read_only
        &&& (require_container ==> self.flows()[flow_id].core.container is Some)
    }

    /// A flow after its time range is recomputed from its segments: the
    /// bounding union of their ranges (none when that is never), and
    /// segments_updated stamped, in the typed fields and the document.
    pub open spec fn timerange_recomputed(a: StoredFlow, b: StoredFlow, segs: Seq<StoredSegment>, now: Seq<char>) -> bool {
        let u = union_of(seg_ranges(segs));
        &&& crate::collection::same_core_but_collected(
            FlowCore { timerange: a.core.timerange, segments_updated: a.core.segments_updated, ..b.core },
            a.core,
        )
        &&& b.core.collected_by == a.core.collected_by
        &&& opt_str_view(b.core.timerange) == (if u == TimeRange::Never {
            None
        } else {
            Some(timerange_text(u))
        })
        &&& opt_str_view(b.core.segments_updated) == Some(now)
        &&& (a.document is Object ==> {
            &&& b.document is Object
            &&& text_member(b.document, "segments_updated"@) == Some(now)
            &&& (u == TimeRange::Never ==> json_get(b.document, "timerange"@) is None)
            &&& (u != TimeRange::Never ==> text_member(b.document, "timerange"@) == Some(timerange_text(u)))
            &&& forall|k: Seq<char>| k != "segments_updated"@ && k != "timerange"@ ==> #[trigger] json_get(b.document, k) == json_get(a.document, k)
        })
        &&& (!(a.document is Object) ==> b.document == a.document)
    }

    /// Recomputes a flow's time range from its segments and stamps
    /// segments_updated; a missing flow is left alone.
    fn recompute_flow_timerange(&mut self, flow_id: &str, now: &str)
        requires
            old(self).wf(),
        ensures
            final(self).wf(),
            old(self).flows().contains_key(flow_id@) ==> final(self).flows().contains_key(flow_id@)
                && final(self).flows() == old(self).flows().insert(flow_id@, final(self).flows()[flow_id@])
                && Store::timerange_recomputed(old(self).flows()[flow_id@], final(self).flows()[flow_id@], old(self).segs_of(flow_id@), now@),
            !old(self).flows().contains_key(flow_id@) ==> final(self).flows() == old(self).flows(),
            final(self).sources() == old(self).sources(),
            final(self).segments() == old(self).segments(),
            final(self).instances() == old(self).instances(),
            final(self).webhooks() == old(self).webhooks(),
            final(self).deletions() == old(self).deletions(),
            final(self).events() == old(self).events(),
            final(self).service() == old(self).service(),
            final(self).backends() == old(self).backends(),
    {
        let mut tr = TimeRange::never();
        let ghost segs = self.segs_of(flow_id@);
        match self.segments.get(flow_id) {
            Some(v) => {
                let mut i: usize = 0;
                assert(seg_ranges(v@).take(0) =~= Seq::<TimeRange>::empty());
                while i < v.len()
                    invariant
                        i <= v@.len(),
                        tr == union_of(seg_ranges(v@).take(i as int)),
                    decreases v@.len() - i,
                {
                    let ghost t = seg_ranges(v@).take(i + 1);
                    assert(t.drop_last() =~= seg_ranges(v@).take(i as int));
                    tr = tr.union(&v[i].timerange);
                    i = i + 1;
                }
                assert(seg_ranges(v@).take(i as int) =~= seg_ranges(v@));
            },
            None => {
                assert(seg_ranges(segs) =~= Seq::<TimeRange>::empty());
            },
        }
        match self.flows.remove(flow_id) {
            Some(f) => {
                let mut f = f;
                let ghost a = f;
                f.core.segments_updated = Some(now.to_owned());
                let text = if tr.is_never() {
                    f.core.timerange = None;
                    None
                } else {
                    let t = tr.to_string();
                    f.core.timerange = Some(t.clone());
                    Some(t)
                };
                let ghost d0 = f.document;
                proof {
                    crate::flowdoc::lemma_server_keys_distinct();
                }
                if f.document.is_object() {
                    match text {
                        Some(t) => {
                            f.document.insert("timerange".to_owned(), Json::Str(t));
                        },
                        None => {
                            f.document.remove("timerange");
                        },
                    }
                    let ghost d1 = f.document;
                    f.document.insert("segments_updated".to_owned(), Json::Str(now.to_owned()));
                    proof {
                        assert forall|k: Seq<char>| k != "segments_updated"@ && k != "timerange"@ implies #[trigger] json_get(f.document, k) == json_get(d0, k) by {
                            crate::json::lemma_get_with(d1, f.document->Object_0->Cons_0, f.document->Object_0->Cons_1, k);
                            if tr == TimeRange::Never {
                                crate::json::lemma_get_removed(d0, "timerange"@, k);
                            } else {
                                crate::json::lemma_get_with(d0, d1->Object_0->Cons_0, d1->Object_0->Cons_1, k);
                            }
                        }
                        crate::json::lemma_get_with(d1, f.document->Object_0->Cons_0, f.document->Object_0->Cons_1, "segments_updated"@);
                        crate::json::lemma_get_with(d1, f.document->Object_0->Cons_0, f.document->Object_0->Cons_1, "timerange"@);
                        if tr == TimeRange::Never {
                            crate::json::lemma_get_removed(d0, "timerange"@, "timerange"@);
                        } else {
                            crate::json::lemma_get_with(d0, d1->Object_0->Cons_0, d1->Object_0->Cons_1, "timerange"@);
                        }
                    }
                }
                let ghost b = f;
                self.flows.insert(flow_id.to_owned(), f);
                proof {
                    assert(self.flows@ =~= old(self).flows@.insert(flow_id@, b));
                }
            },
            None => {},
        }
    }

    /// Adds segments to a flow. The flow must exist, be writable and have a
    /// container. Each document becomes a segment unless it is malformed,
    /// has an empty range, or overlaps a segment the flow has or one
    /// accepted before it; if none is accepted and some failed, nothing
    /// changes and the failures are reported together. Otherwise the
    /// flow's segments, now sorted by start, are the old ones and the new
    /// ones; the flow's time range is their union; a segments-added event is
    /// recorded when any were added.
    pub fn post_segments(&mut self, flow_id: &str, docs: Vec<Json>, stamp: &Stamp) -> (r: Result<SegmentPostResult, StoreError>)
        requires
            old(self).wf(),
        ensures
            final(self).wf(),
            !old(self).flows().contains_key(flow_id@) ==> (r matches Err(StoreError::NotFound(m)) && m@
                == not_found_message("Flow"@, flow_id@)),
            old(self).flows().contains_key(flow_id@) && old(self).flows()[flow_id@].core.read_only ==> r matches Err(
                StoreError::ReadOnly,
            ),
            old(self).flows().contains_key(flow_id@) && !old(self).flows()[flow_id@].core.read_only
                && old(self).flows()[flow_id@].core.container is None ==> (r matches Err(StoreError::BadRequest(m))
                && m@ == "Flow must have a container set"@),
            ({
                let ex = seg_ranges(old(self).segs_of(flow_id@));
                let acc = batch_accepted(ex, docs@);
                let fl = batch_failed(ex, docs@);
                &&& (old(self).flow_writable(flow_id@, true) && acc.len() == 0 && fl.len() > 0 ==> r matches Err(StoreError::BadRequest(_)))
                &&& (r is Ok <==> old(self).flow_writable(flow_id@, true) && !(acc.len() == 0 && fl.len() > 0))
                &&& (r matches Ok(SegmentPostResult::AllCreated) <==> r is Ok && fl.len() == 0)
                &&& (r matches Ok(SegmentPostResult::PartialFailure(f)) ==> f@.len() == fl.len() && forall|i: int|
                    0 <= i < f@.len() ==> failure_matches(#[trigger] f@[i], fl[i]))
                &&& (r is Ok ==> {
                    &&& sorted_by_start(final(self).segs_of(flow_id@))
                    &&& (exists|c: Seq<StoredSegment>, perm: Seq<int>, inv: Seq<int>| {
                        &&& c.len() == acc.len()
                        &&& (forall|i: int| 0 <= i < c.len() ==> (#[trigger] c[i]).document == acc[i]
                            && c[i].timerange == doc_range(c[i].document)
                            && Some(c[i].object_id@) == text_member(c[i].document, "object_id"@))
                        &&& #[trigger] is_reordering(final(self).segs_of(flow_id@), old(self).segs_of(flow_id@) + c, perm, inv)
                    })
                    &&& (pairwise_disjoint(ex) ==> pairwise_disjoint(seg_ranges(final(self).segs_of(flow_id@))))
                    &&& final(self).flows().contains_key(flow_id@)
                    &&& final(self).flows() == old(self).flows().insert(flow_id@, final(self).flows()[flow_id@])
                    &&& Store::timerange_recomputed(old(self).flows()[flow_id@], final(self).flows()[flow_id@], final(self).segs_of(flow_id@), stamp.now@)
                    &&& (acc.len() > 0 ==> final(self).events().len() == old(self).events().len() + 1
                        && final(self).events().last() is SegmentsAdded
                        && crate::webhook::event_flow_id(final(self).events().last()) == Some(flow_id@)
                        && crate::webhook::event_source_id(final(self).events().last()) == Some(old(self).flows()[flow_id@].core.source_id@))
                    &&& (acc.len() == 0 ==> final(self).events() == old(self).events())
                    &&& final(self).events().take(old(self).events().len() as int) == old(self).events()
                })
            }),
            r is Err ==> final(self).flows() == old(self).flows() && final(self).events() == old(self).events(),
            forall|f: Seq<char>| f != flow_id@ ==> #[trigger] final(self).segs_of(f) == old(self).segs_of(f),
            r is Err ==> final(self).segs_of(flow_id@) == old(self).segs_of(flow_id@),
            final(self).sources() == old(self).sources(),
            final(self).instances() == old(self).instances(),
            final(self).webhooks() == old(self).webhooks(),
            final(self).deletions() == old(self).deletions(),
    {
        match self.require_writable_flow(flow_id, true) {
            Ok(_) => {},
            Err(e) => {
                return Err(e);
            },
        }
        let existing = match self.segments.remove(flow_id) {
            Some(v) => v,
            None => Vec::new(),
        };
        let ghost ex_segs = existing@;
        assert(ex_segs == old(self).segs_of(flow_id@));
        let ghost ex = seg_ranges(existing@);
        let (created, failed) = check_segments(&existing, docs);
        if created.len() == 0 && failed.len() > 0 {
            let mut msg = String::new();
            let mut i: usize = 0;
            while i < failed.len()
                invariant
                    i <= failed@.len(),
                decreases failed@.len() - i,
            {
                if i > 0 {
                    msg.append("; ");
                }
                msg.append(failed[i].error.as_str());
                i = i + 1;
            }
            self.segments.insert(flow_id.to_owned(), existing);
            proof {
                assert forall|f: Seq<char>| f != flow_id@ implies #[trigger] self.segs_of(f) == old(self).segs_of(f) by {}
            }
            return Err(StoreError::BadRequest(msg));
        }
        let mut new_docs: Vec<Json> = Vec::new();
        let mut i: usize = 0;
        while i < created.len()
            invariant
                i <= created@.len(),
                new_docs@.len() == i,
                forall|j: int| 0 <= j < i ==> #[trigger] new_docs@[j] == created@[j].document,
            decreases created@.len() - i,
        {
            new_docs.push(created[i].document.copy());
            i = i + 1;
        }
        let ghost c = created@;
        let mut all = existing;
        let mut created = created;
        let mut k: usize = 0;
        let n = created.len();
        while k < n
            invariant
                n == c.len(),
                k <= n,
                created@ == c.subrange(k as int, n as int),
                all@ == ex_segs + c.take(k as int),
            decreases n - k,
        {
            let seg = created.remove(0);
            assert(seg == c[k as int]);
            assert(created@ =~= c.subrange(k + 1, n as int));
            all.push(seg);
            k = k + 1;
            assert(all@ =~= ex_segs + c.take(k as int));
        }
        assert(c.take(n as int) =~= c);
        let (sorted, perm, inv) = sort_by_start(all);
        proof {
            if pairwise_disjoint(ex) {
                lemma_batch_disjoint(ex, docs@);
                assert(seg_ranges(ex_segs + c) =~= ex + seg_ranges(c));
                lemma_reordering_disjoint(sorted@, ex_segs + c, perm@, inv@);
            }
        }
        let ghost sorted_v = sorted@;
        self.segments.insert(flow_id.to_owned(), sorted);
        proof {
            assert(self.segs_of(flow_id@) == sorted_v);
            assert forall|f: Seq<char>| f != flow_id@ implies #[trigger] self.segs_of(f) == old(self).segs_of(f) by {}
        }
        let ghost before_recompute = *self;
        self.recompute_flow_timerange(flow_id, stamp.now.as_str());
        if new_docs.len() > 0 {
            let (source_id, flow_cb) = match self.flows.get(flow_id) {
                Some(f) => (f.core.source_id.clone(), strings_or_empty(&f.core.collected_by)),
                None => vstd::pervasive::unreached(),
            };
            let source_cb = match self.sources.get(source_id.as_str()) {
                Some(src) => strings_or_empty(&src.collected_by),
                None => Vec::new(),
            };
            self.events.push(StoreEvent::SegmentsAdded {
                flow_id: flow_id.to_owned(),
                source_id,
                segments: new_docs,
                flow_collected_by: flow_cb,
                source_collected_by: source_cb,
            });
        }
        proof {
            assert(exists|c2: Seq<StoredSegment>, perm2: Seq<int>, inv2: Seq<int>| {
                &&& c2.len() == batch_accepted(ex, docs@).len()
                &&& (forall|i: int| 0 <= i < c2.len() ==> (#[trigger] c2[i]).document == batch_accepted(ex, docs@)[i]
                    && c2[i].timerange == doc_range(c2[i].document)
                    && Some(c2[i].object_id@) == text_member(c2[i].document, "object_id"@))
                &&& #[trigger] is_reordering(self.segs_of(flow_id@), old(self).segs_of(flow_id@) + c2, perm2, inv2)
            }) by {
                assert(is_reordering(self.segs_of(flow_id@), old(self).segs_of(flow_id@) + c, perm@, inv@));
            }
        }
        if failed.len() == 0 {
            Ok(SegmentPostResult::AllCreated)
        } else {
            Ok(SegmentPostResult::PartialFailure(failed))
        }
    }

    /// The label a backend's URLs carry: its own, or `s3`.
    pub open spec fn backend_label(b: StorageBackend) -> Seq<char> {
        match b.label {
            Some(l) => l@,
            None => "s3"@,
        }
    }

    /// Whether listings add the store's own download URL under the query's filters.
    pub open spec fn controlled_url_wanted(
        self,
        presigned: Option<bool>,
        accept_get_urls: Option<Vec<String>>,
        accept_storage_ids: Option<Vec<String>>,
    ) -> bool {
        &&& self.backends().len() > 0
        &&& controlled_url_shown(
            presigned,
            true,
            accept_get_urls,
            accept_storage_ids,
            self.backends()[0].id@,
            Store::backend_label(self.backends()[0]),
        )
    }

    pub(crate) fn controlled_url_included(
        &self,
        presigned: Option<bool>,
        accept_get_urls: &Option<Vec<String>>,
        accept_storage_ids: &Option<Vec<String>>,
    ) -> (r: bool)
        ensures
            r == self.controlled_url_wanted(presigned, *accept_get_urls, *accept_storage_ids),
    {
        if self.storage_backends.len() == 0 {
            return false;
        }
        let b = &self.storage_backends[0];
        let label = match &b.label {
            Some(l) => l.as_str(),
            None => "s3",
        };
        should_include_controlled_url(presigned, true, accept_get_urls, accept_storage_ids, b.id.as_str(), label)
    }

    /// Lists a flow's segments under a query: the selected segments, in
    /// reverse when asked, each document with its uncontrolled URLs
    /// filtered; the bounding union of their ranges.
    pub fn get_segments(&self, flow_id: &str, query: &SegmentQuery) -> (r: SegmentListing)
        ensures
            ({
                let m = selected(self.segs_of(flow_id@), *query);
                &&& r.timerange == union_of(seg_ranges(m))
                &&& r.documents@.len() == m.len()
                &&& r.object_ids@.len() == m.len()
                &&& forall|i: int| 0 <= i < m.len() ==> shown_document(
                    m[listed_position(m.len() as int, i, query.reverse_order)].document,
                    #[trigger] r.documents@[i],
                    *query,
                ) && r.object_ids@[i]@ == m[listed_position(m.len() as int, i, query.reverse_order)].object_id@
            }),
            r.include_controlled_url == (self.segs_of(flow_id@).len() > 0 && self.controlled_url_wanted(
                query.presigned,
                query.accept_get_urls,
                query.accept_storage_ids,
            )),
    {
        let empty: Vec<StoredSegment> = Vec::new();
        let segs = match self.segments.get(flow_id) {
            Some(v) => v,
            None => &empty,
        };
        assert(segs@ == self.segs_of(flow_id@));
        let mut matched: Vec<&StoredSegment> = Vec::new();
        let mut tr = TimeRange::never();
        let mut i: usize = 0;
        assert(segs@.take(0) =~= Seq::<StoredSegment>::empty());
        while i < segs.len()
            invariant
                i <= segs@.len(),
                matched@.len() == selected(segs@.take(i as int), *query).len(),
                forall|j: int| 0 <= j < matched@.len() ==> *(#[trigger] matched@[j]) == selected(segs@.take(i as int), *query)[j],
                tr == union_of(seg_ranges(selected(segs@.take(i as int), *query))),
            decreases segs@.len() - i,
        {
            let ghost t = segs@.take(i + 1);
            assert(t.drop_last() =~= segs@.take(i as int));
            if matches_query(&segs[i], query) {
                let ghost sel = selected(segs@.take(i as int), *query);
                matched.push(&segs[i]);
                tr = tr.union(&segs[i].timerange);
                assert(seg_ranges(sel.push(segs@[i as int])).drop_last() =~= seg_ranges(sel));
            }
            i = i + 1;
        }
        assert(segs@.take(i as int) =~= segs@);
        let ghost m = selected(segs@, *query);
        let n = matched.len();
        let mut documents: Vec<Json> = Vec::new();
        let mut object_ids: Vec<String> = Vec::new();
        let mut k: usize = 0;
        while k < n
            invariant
                n == matched@.len(),
                n == m.len(),
                forall|j: int| 0 <= j < n ==> *(#[trigger] matched@[j]) == m[j],
                k <= n,
                documents@.len() == k,
                object_ids@.len() == k,
                forall|j: int| 0 <= j < k ==> shown_document(
                    m[listed_position(n as int, j, query.reverse_order)].document,
                    #[trigger] documents@[j],
                    *query,
                ) && object_ids@[j]@ == m[listed_position(n as int, j, query.reverse_order)].object_id@,
            decreases n - k,
        {
            let idx = if query.reverse_order {
                n - 1 - k
            } else {
                k
            };
            let seg = matched[idx];
            assert(*seg == m[listed_position(n as int, k as int, query.reverse_order)]);
            documents.push(show_document(&seg.document, query));
            object_ids.push(seg.object_id.clone());
            k = k + 1;
        }
        let with_url = segs.len() > 0 && self.controlled_url_included(
            query.presigned,
            &query.accept_get_urls,
            &query.accept_storage_ids,
        );
        SegmentListing { documents, object_ids, timerange: tr, include_controlled_url: with_url }
    }

    /// Deletes the segments of a writable flow that a query covers (all of
    /// them when the query names no range and no object), recomputes the
    /// flow's time range, and records a segments-deleted event.
    pub fn delete_segments(&mut self, flow_id: &str, query: &SegmentQuery, stamp: &Stamp) -> (r: Result<SegmentDeleteResult, StoreError>)
        requires
            old(self).wf(),
        ensures
            final(self).wf(),
            !old(self).flows().contains_key(flow_id@) ==> (r matches Err(StoreError::NotFound(m)) && m@
                == not_found_message("Flow"@, flow_id@)),
            old(self).flows().contains_key(flow_id@) && old(self).flows()[flow_id@].core.read_only ==> r matches Err(
                StoreError::ReadOnly,
            ),
            r is Ok <==> old(self).flow_writable(flow_id@, false),
            r is Ok ==> r matches Ok(SegmentDeleteResult::Deleted),
            r is Ok ==> final(self).segs_of(flow_id@) == kept_after_delete(old(self).segs_of(flow_id@), *query)
                && (pairwise_disjoint(seg_ranges(old(self).segs_of(flow_id@))) ==> pairwise_disjoint(seg_ranges(final(self).segs_of(flow_id@))))
                && final(self).flows().contains_key(flow_id@)
                && final(self).flows() == old(self).flows().insert(flow_id@, final(self).flows()[flow_id@])
                && Store::timerange_recomputed(old(self).flows()[flow_id@], final(self).flows()[flow_id@], final(self).segs_of(flow_id@), stamp.now@)
                && final(self).events().len() == old(self).events().len() + 1
                && final(self).events().take(old(self).events().len() as int) == old(self).events()
                && final(self).events().last() is SegmentsDeleted
                && crate::webhook::event_flow_id(final(self).events().last()) == Some(flow_id@),
            r is Err ==> final(self).segs_of(flow_id@) == old(self).segs_of(flow_id@) && final(self).flows() == old(self).flows()
                && final(self).events() == old(self).events(),
            forall|f: Seq<char>| f != flow_id@ ==> #[trigger] final(self).segs_of(f) == old(self).segs_of(f),
            final(self).sources() == old(self).sources(),
            final(self).instances() == old(self).instances(),
            final(self).webhooks() == old(self).webhooks(),
            final(self).deletions() == old(self).deletions(),
    {
        match self.require_writable_flow(flow_id, false) {
            Ok(_) => {},
            Err(e) => {
                return Err(e);
            },
        }
        let ghost old_segs = self.segs_of(flow_id@);
        match self.segments.remove(flow_id) {
            Some(v) => {
                let mut kept: Vec<StoredSegment> = Vec::new();
                let mut v = v;
                let ghost all = v@;
                let n = v.len();
                let mut i: usize = 0;
                assert(all.take(0) =~= Seq::<StoredSegment>::empty());
                while i < n
                    invariant
                        n == all.len(),
                        i <= n,
                        v@ == all.subrange(i as int, n as int),
                        kept@ == kept_after_delete(all.take(i as int), *query),
                    decreases n - i,
                {
                    let seg = v.remove(0);
                    assert(seg == all[i as int]);
                    assert(v@ =~= all.subrange(i + 1, n as int));
                    let ghost t = all.take(i + 1);
                    assert(t.drop_last() =~= all.take(i as int));
                    if !delete_matches(&seg, query) {
                        kept.push(seg);
                    }
                    i = i + 1;
                }
                assert(all.take(n as int) =~= all);
                if kept.len() > 0 {
                    self.segments.insert(flow_id.to_owned(), kept);
                }
            },
            None => {
                assert(kept_after_delete(old_segs, *query) =~= Seq::<StoredSegment>::empty());
            },
        }
        proof {
            assert forall|f: Seq<char>| f != flow_id@ implies #[trigger] self.segs_of(f) == old(self).segs_of(f) by {}
            assert(self.segs_of(flow_id@) =~= kept_after_delete(old_segs, *query));
            if pairwise_disjoint(seg_ranges(old_segs)) {
                lemma_kept_disjoint(old_segs, *query);
            }
        }
        self.recompute_flow_timerange(flow_id, stamp.now.as_str());
        let tr_text = match &query.timerange {
            Some(t) => t.to_string(),
            None => String::from_str("_"),
        };
        let (source_id, flow_cb) = match self.flows.get(flow_id) {
            Some(f) => (f.core.source_id.clone(), strings_or_empty(&f.core.collected_by)),
            None => vstd::pervasive::unreached(),
        };
        let source_cb = match self.sources.get(source_id.as_str()) {
            Some(src) => strings_or_empty(&src.collected_by),
            None => Vec::new(),
        };
        self.events.push(StoreEvent::SegmentsDeleted {
            flow_id: flow_id.to_owned(),
            source_id,
            timerange: tr_text,
            flow_collected_by: flow_cb,
            source_collected_by: source_cb,
        });
        Ok(SegmentDeleteResult::Deleted)
    }

    /// Some segment of some flow is of the object.
    pub open spec fn object_in_segments(self, object_id: Seq<char>) -> bool {
        exists|f: Seq<char>, i: int| #![trigger self.segs_of(f)[i]] self.segments().contains_key(f) && 0 <= i < self.segs_of(f).len()
            && self.segs_of(f)[i].object_id@ == object_id
    }

    /// Whether some segment of some flow is of the object.
    fn object_referenced(&self, object_id: &str) -> (r: bool)
        ensures
            r == self.object_in_segments(object_id@),
    {
        let n = self.segments.len();
        let ghost ks = self.segments.keys();
        let mut i: usize = 0;
        while i < n
            invariant
                i <= n,
                n == ks.len(),
                ks == self.segments.keys(),
                ordered_keys_of(ks, self.segments@),
                forall|j: int, x: int| 0 <= j < i && 0 <= x < self.segs_of(ks[j]).len() ==> #[trigger] self.segs_of(ks[j])[x].object_id@ != object_id@,
            decreases n - i,
        {
            let (k, v) = self.segments.entry_at(i);
            let mut x: usize = 0;
            while x < v.len()
                invariant
                    x <= v@.len(),
                    v@ == self.segs_of(k@),
                    forall|y: int| 0 <= y < x ==> #[trigger] v@[y].object_id@ != object_id@,
                decreases v@.len() - x,
            {
                if str_eq(v[x].object_id.as_str(), object_id) {
                    assert(self.segs_of(k@)[x as int].object_id@ == object_id@);
                    return true;
                }
                x = x + 1;
            }
            i = i + 1;
        }
        proof {
            if self.object_in_segments(object_id@) {
                let (f, x) = choose|f: Seq<char>, x: int| #![trigger self.segs_of(f)[x]] self.segments().contains_key(f) && 0 <= x < self.segs_of(f).len()
                    && self.segs_of(f)[x].object_id@ == object_id@;
                let j = choose|j: int| 0 <= j < ks.len() && ks[j] == f;
                assert(self.segs_of(ks[j])[x].object_id@ != object_id@);
            }
        }
        false
    }

    /// Allocates media objects for a writable flow with a container: the
    /// ids asked for, which no segment may use yet, or as many fresh ids as
    /// the limit says (one by default). Each comes with the flow's
    /// container as its content type; its upload URL is left empty.
    #[verifier::loop_isolation(false)]
    /// The request names a storage backend the store does not have.
    pub open spec fn unknown_backend(self, request: StorageRequest) -> bool {
        request.storage_id matches Some(sid) && !(exists|i: int| 0 <= i < self.backends().len() && #[trigger] self.backends()[i].id@ == sid@)
    }

    /// An allocation is refused: the flow is missing, read-only or without a
    /// container; the backend is unknown; both a limit and object ids are
    /// given; or a named object is already in a segment.
    pub open spec fn allocation_refused(self, flow_id: Seq<char>, request: StorageRequest) -> bool {
        ||| !self.flow_writable(flow_id, true)
        ||| self.unknown_backend(request)
        ||| (request.limit is Some && request.object_ids is Some)
        ||| (request.object_ids matches Some(ids) && exists|i: int| 0 <= i < ids@.len() && self.object_in_segments(#[trigger] ids@[i]@))
    }

    /// `e` is the error a refused allocation gives: that of the first reason
    /// in the order `allocation_refused` lists them; for objects in segments,
    /// the first such object.
    pub open spec fn allocation_error(self, flow_id: Seq<char>, request: StorageRequest, e: StoreError) -> bool {
        if !self.flows().contains_key(flow_id) {
            e matches StoreError::NotFound(m) && m@ == not_found_message("Flow"@, flow_id)
        } else if self.flows()[flow_id].core.read_only {
            e matches StoreError::ReadOnly
        } else if self.flows()[flow_id].core.container is None {
            e matches StoreError::BadRequest(m) && m@ == "Flow must have a container set"@
        } else if self.unknown_backend(request) {
            e matches StoreError::BadRequest(m) && m@ == "Invalid storage backend identifier: "@ + request.storage_id->0@
        } else if request.limit is Some && request.object_ids is Some {
            e matches StoreError::BadRequest(m) && m@ == "Cannot specify both limit and object_ids"@
        } else {
            exists|i: int| 0 <= i < request.object_ids->0@.len()
                && self.object_in_segments(#[trigger] request.object_ids->0@[i]@)
                && (forall|j: int| 0 <= j < i ==> !self.object_in_segments(#[trigger] request.object_ids->0@[j]@))
                && (e matches StoreError::BadRequest(m) && m@ == "Object ID '"@ + request.object_ids->0@[i]@ + "' already exists"@)
        }
    }

    pub fn allocate_storage(&self, flow_id: &str, request: StorageRequest) -> (r: Result<Vec<AllocatedObject>, StoreError>)
        ensures
            r is Err <==> self.allocation_refused(flow_id@, request),
            r matches Err(e) ==> self.allocation_error(flow_id@, request, e),
            !self.flow_writable(flow_id@, true) ==> r is Err,
            r is Ok ==> self.flow_writable(flow_id@, true),
            self.flow_writable(flow_id@, true) && (request.storage_id matches Some(sid) && !(exists|i: int| 0 <= i < self.backends().len() && #[trigger] self.backends()[i].id@ == sid@))
                ==> (r matches Err(StoreError::BadRequest(m)) && m@ == "Invalid storage backend identifier: "@ + request.storage_id->0@),
            self.flow_writable(flow_id@, true) && !(request.storage_id matches Some(sid) && !(exists|i: int| 0 <= i < self.backends().len() && #[trigger] self.backends()[i].id@ == sid@))
                && request.limit is Some && request.object_ids is Some
                ==> (r matches Err(StoreError::BadRequest(m)) && m@ == "Cannot specify both limit and object_ids"@),
            r matches Ok(objs) ==> (forall|i: int| 0 <= i < objs@.len() ==> (#[trigger] objs@[i]).content_type == self.flows()[flow_id@].core.container
                && objs@[i].put_url@ == Seq::<char>::empty()),
            r matches Ok(objs) ==> match request.object_ids {
                Some(ids) => objs@.len() == ids@.len() && (forall|i: int| 0 <= i < ids@.len() ==> (#[trigger] objs@[i]).object_id@ == ids@[i]@
                    && !self.object_in_segments(ids@[i]@)),
                None => objs@.len() == (match request.limit { Some(l) => l as int, None => 1 }) && forall|i: int| 0 <= i < objs@.len() ==> (#[trigger] objs@[i]).object_id@.len() == 36,
            },
            r is Err && request.object_ids is Some && request.limit is None && self.flow_writable(flow_id@, true)
                && !(request.storage_id matches Some(sid) && !(exists|i: int| 0 <= i < self.backends().len() && #[trigger] self.backends()[i].id@ == sid@))
                ==> exists|i: int| 0 <= i < request.object_ids->0@.len() && self.object_in_segments(#[trigger] request.object_ids->0@[i]@),
    {
        let content_type = match self.require_writable_flow(flow_id, true) {
            Ok(c) => c,
            Err(e) => {
                return Err(e);
            },
        };
        if let Some(sid) = &request.storage_id {
            let mut found = false;
            let mut i: usize = 0;
            while i < self.storage_backends.len()
                invariant
                    i <= self.storage_backends@.len(),
                    self.storage_backends@ == self.backends(),
                    found == exists|j: int| 0 <= j < i && #[trigger] self.backends()[j].id@ == sid@,
                decreases self.storage_backends@.len() - i,
            {
                if str_eq(self.storage_backends[i].id.as_str(), sid.as_str()) {
                    found = true;
                }
                i = i + 1;
            }
            if !found {
                return Err(StoreError::BadRequest(String::from_str("Invalid storage backend identifier: ").concat(sid.as_str())));
            }
        }
        if request.limit.is_some() && request.object_ids.is_some() {
            return Err(StoreError::BadRequest(String::from_str("Cannot specify both limit and object_ids")));
        }
        let mut objects: Vec<AllocatedObject> = Vec::new();
        match &request.object_ids {
            Some(ids) => {
                let mut i: usize = 0;
                while i < ids.len()
                    invariant
                        i <= ids@.len(),
                        request.object_ids == Some(*ids),
                        self.flow_writable(flow_id@, true),
                        !self.unknown_backend(request),
                        !(request.limit is Some && request.object_ids is Some),
                        forall|j: int| 0 <= j < i ==> !self.object_in_segments(#[trigger] ids@[j]@),
                    decreases ids@.len() - i,
                {
                    if self.object_referenced(ids[i].as_str()) {
                        assert(self.object_in_segments(request.object_ids->0@[i as int]@));
                        let e = StoreError::BadRequest(
                            String::from_str("Object ID '").concat(ids[i].as_str()).concat("' already exists"),
                        );
                        assert(self.allocation_error(flow_id@, request, e));
                        return Err(e);
                    }
                    i = i + 1;
                }
                let mut k: usize = 0;
                while k < ids.len()
                    invariant
                        k <= ids@.len(),
                        objects@.len() == k,
                        forall|j: int| 0 <= j < k ==> (#[trigger] objects@[j]).object_id@ == ids@[j]@
                            && objects@[j].content_type == content_type && objects@[j].put_url@ == Seq::<char>::empty(),
                    decreases ids@.len() - k,
                {
                    objects.push(AllocatedObject {
                        object_id: ids[k].clone(),
                        put_url: String::new(),
                        content_type: crate::error::copy_opt_str(&content_type),
                    });
                    k = k + 1;
                }
            },
            None => {
                let count: u64 = match request.limit {
                    Some(l) => l,
                    None => 1,
                };
                let mut k: u64 = 0;
                while k < count
                    invariant
                        k <= count,
                        objects@.len() == k,
                        forall|j: int| 0 <= j < k ==> (#[trigger] objects@[j]).object_id@.len() == 36
                            && objects@[j].content_type == content_type && objects@[j].put_url@ == Seq::<char>::empty(),
                    decreases count - k,
                {
                    objects.push(AllocatedObject {
                        object_id: new_uuid(),
                        put_url: String::new(),
                        content_type: crate::error::copy_opt_str(&content_type),
                    });
                    k = k + 1;
                }
            },
        }
        Ok(objects)
    }

    /// The range a stored flow's time range text stands for; never when it does not parse.
    pub open spec fn flow_range(t: Seq<char>) -> TimeRange {
        match spec_parse_timerange(t) {
            Some(x) => x,
            None => TimeRange::Never,
        }
    }

    /// Whether a flow is listed under the filters. A range filter that does
    /// not parse filters nothing; eternity lists every flow; never lists the
    /// flows without content; any other lists the flows whose range overlaps it.
    pub open spec fn flow_listed(c: FlowCore, f: FlowFilters, tf: TagFilters) -> bool {
        &&& (f.source_id matches Some(x) ==> c.source_id@ == x@)
        &&& (f.format matches Some(x) ==> c.format@ == x@)
        &&& opt_filter_passes(f.codec, c.codec)
        &&& opt_filter_passes(f.label, c.label)
        &&& (f.frame_width matches Some(w) ==> c.frame_width == Some(w))
        &&& (f.frame_height matches Some(h) ==> c.frame_height == Some(h))
        &&& match f.timerange {
            Some(t) => match spec_parse_timerange(t@) {
                Some(q) => if q == (TimeRange::Range { start: None, end: None }) {
                    true
                } else if q == TimeRange::Never {
                    c.timerange is None
                } else {
                    c.timerange matches Some(ft) && spec_overlaps(Store::flow_range(ft@), q)
                },
                None => true,
            },
            None => true,
        }
        &&& tag_filters_pass(tf, tags_or_empty(c.tags))
    }

    /// How a listing shows a flow document: with its time range ("()" when
    /// it has none), or without one.
    pub open spec fn listed_flow_document(doc: Json, shown: Json, include_timerange: bool) -> bool {
        if !(doc is Object) {
            shown == doc
        } else if include_timerange {
            if json_get(doc, "timerange"@) is Some {
                shown == doc
            } else {
                member_set(doc, shown, "timerange"@, Json::Str(shown->Object_0->Cons_1->Str_0))
                    && shown->Object_0->Cons_1->Str_0@ == "()"@
            }
        } else {
            shown == crate::json::json_removed(doc, "timerange"@)
        }
    }

    fn flow_passes(c: &FlowCore, filters: &FlowFilters, q: &Option<TimeRange>, tag_filters: &TagFilters) -> (r: bool)
        requires
            match filters.timerange {
                Some(t) => *q == spec_parse_timerange(t@),
                None => *q is None,
            },
        ensures
            r == Store::flow_listed(*c, *filters, *tag_filters),
    {
        if let Some(sid) = &filters.source_id {
            if !str_eq(c.source_id.as_str(), sid.as_str()) {
                return false;
            }
        }
        if let Some(fmt) = &filters.format {
            if !str_eq(c.format.as_str(), fmt.as_str()) {
                return false;
            }
        }
        if let Some(codec) = &filters.codec {
            match &c.codec {
                Some(x) => {
                    if !str_eq(x.as_str(), codec.as_str()) {
                        return false;
                    }
                },
                None => {
                    return false;
                },
            }
        }
        if let Some(label) = &filters.label {
            match &c.label {
                Some(x) => {
                    if !str_eq(x.as_str(), label.as_str()) {
                        return false;
                    }
                },
                None => {
                    return false;
                },
            }
        }
        if let Some(fw) = filters.frame_width {
            if c.frame_width != Some(fw) {
                return false;
            }
        }
        if let Some(fh) = filters.frame_height {
            if c.frame_height != Some(fh) {
                return false;
            }
        }
        if let Some(query_tr) = q {
            if query_tr.is_eternity() {
            } else if query_tr.is_never() {
                if c.timerange.is_some() {
                    return false;
                }
            } else {
                match &c.timerange {
                    None => {
                        return false;
                    },
                    Some(t) => {
                        let flow_tr = match TimeRange::parse(t.as_str()) {
                            Ok(x) => x,
                            Err(_) => TimeRange::never(),
                        };
                        if !flow_tr.overlaps(query_tr) {
                            return false;
                        }
                    },
                }
            }
        }
        match &c.tags {
            Some(t) => tag_filters.matches(t),
            None => {
                let empty = Tags::new();
                let r = tag_filters.matches(&empty);
                assert(tags_or_empty(c.tags) == empty@);
                r
            },
        }
    }

    fn listed_document(doc: &Json, include_timerange: bool) -> (r: Json)
        ensures
            Store::listed_flow_document(*doc, r, include_timerange),
    {
        let mut d = doc.copy();
        if !d.is_object() {
            return d;
        }
        if include_timerange {
            if d.get("timerange").is_none() {
                let ghost d0 = d;
                d.insert("timerange".to_owned(), Json::Str("()".to_owned()));
                proof {
                    assert forall|q: Seq<char>| #[trigger] json_get(d, q) == if q == "timerange"@ {
                        Some(Json::Str(d->Object_0->Cons_1->Str_0))
                    } else {
                        json_get(d0, q)
                    } by {
                        crate::json::lemma_get_with(d0, d->Object_0->Cons_0, d->Object_0->Cons_1, q);
                    }
                }
            }
        } else {
            d.remove("timerange");
        }
        d
    }

    /// The documents of the flows the filters list, in id order, each with
    /// or without its time range.
    pub fn list_flows(&self, filters: &FlowFilters, tag_filters: &TagFilters, include_timerange: bool) -> (r: Vec<Json>)
        ensures
            exists|ids: Seq<Seq<char>>| {
                &&& #[trigger] ids.len() == r@.len()
                &&& (forall|i: int, j: int| 0 <= i < j < ids.len() ==> crate::order::seq_lt(ids[i], ids[j]))
                &&& (forall|i: int| 0 <= i < ids.len() ==> self.flows().contains_key(#[trigger] ids[i])
                    && Store::flow_listed(self.flows()[ids[i]].core, *filters, *tag_filters)
                    && Store::listed_flow_document(self.flows()[ids[i]].document, r@[i], include_timerange))
                &&& (forall|k: Seq<char>| #[trigger] self.flows().contains_key(k) && Store::flow_listed(self.flows()[k].core, *filters, *tag_filters)
                    ==> ids.contains(k))
            },
    {
        let q = match &filters.timerange {
            Some(t) => match TimeRange::parse(t.as_str()) {
                Ok(x) => Some(x),
                Err(_) => None,
            },
            None => None,
        };
        let n = self.flows.len();
        let ghost ks = self.flows.keys();
        let ghost mut ids: Seq<Seq<char>> = Seq::empty();
        let mut out: Vec<Json> = Vec::new();
        let mut i: usize = 0;
        while i < n
            invariant
                i <= n,
                n == ks.len(),
                ks == self.flows.keys(),
                ordered_keys_of(ks, self.flows@),
                match filters.timerange {
                    Some(t) => q == spec_parse_timerange(t@),
                    None => q is None,
                },
                ids.len() == out@.len(),
                forall|a: int| 0 <= a < ids.len() ==> exists|j: int| 0 <= j < i && ks[j] == #[trigger] ids[a],
                forall|a: int, b: int| 0 <= a < b < ids.len() ==> crate::order::seq_lt(ids[a], ids[b]),
                forall|a: int| 0 <= a < ids.len() ==> self.flows().contains_key(#[trigger] ids[a])
                    && Store::flow_listed(self.flows()[ids[a]].core, *filters, *tag_filters)
                    && Store::listed_flow_document(self.flows()[ids[a]].document, out@[a], include_timerange),
                forall|j: int| 0 <= j < i && Store::flow_listed(self.flows()[ks[j]].core, *filters, *tag_filters)
                    ==> ids.contains(#[trigger] ks[j]),
            decreases n - i,
        {
            let (k, f) = self.flows.entry_at(i);
            if Store::flow_passes(&f.core, filters, &q, tag_filters) {
                let ghost before = ids;
                out.push(Store::listed_document(&f.document, include_timerange));
                proof {
                    ids = ids.push(k@);
                    assert forall|a: int, b: int| 0 <= a < b < ids.len() implies crate::order::seq_lt(ids[a], ids[b]) by {
                        if b == ids.len() - 1 {
                            assert(ids[a] == before[a]);
                            let j = choose|j: int| 0 <= j < i && ks[j] == before[a];
                        } else {
                            assert(ids[a] == before[a] && ids[b] == before[b]);
                        }
                    }
                    assert forall|a: int| 0 <= a < ids.len() implies exists|j: int| 0 <= j < i + 1 && ks[j] == #[trigger] ids[a] by {
                        if a < before.len() {
                            assert(ids[a] == before[a]);
                            let j = choose|j: int| 0 <= j < i && ks[j] == before[a];
                        } else {
                            assert(ks[i as int] == ids[a]);
                        }
                    }
                    assert forall|j: int| 0 <= j < i + 1 && Store::flow_listed(self.flows()[ks[j]].core, *filters, *tag_filters)
                        implies ids.contains(#[trigger] ks[j]) by {
                        if j < i {
                            assert(before.contains(ks[j]));
                            let a = choose|a: int| 0 <= a < before.len() && before[a] == ks[j];
                            assert(ids[a] == before[a]);
                        } else {
                            assert(ids[ids.len() - 1] == ks[j]);
                        }
                    }
                }
            }
            i = i + 1;
        }
        proof {
            assert forall|k: Seq<char>| #[trigger] self.flows().contains_key(k) && Store::flow_listed(self.flows()[k].core, *filters, *tag_filters)
                implies ids.contains(k) by {
                let j = choose|j: int| 0 <= j < ks.len() && ks[j] == k;
                assert(ids.contains(ks[j]));
            }
        }
        out
    }

    /// Takes a flow out for an edit: it must exist, be writable (unless
    /// read-only is being set) and have an object document.
    fn take_flow_for_edit(&mut self, id: &str, skip_read_only: bool) -> (r: Result<StoredFlow, StoreError>)
        requires
            old(self).wf(),
        ensures
            final(self).wf(),
            !old(self).flows().contains_key(id@) ==> (r matches Err(StoreError::NotFound(m)) && m@ == not_found_message("Flow"@, id@)),
            old(self).flows().contains_key(id@) && !skip_read_only && old(self).flows()[id@].core.read_only ==> r matches Err(StoreError::ReadOnly),
            old(self).flows().contains_key(id@) && !(!skip_read_only && old(self).flows()[id@].core.read_only)
                && !(old(self).flows()[id@].document is Object) ==> (r matches Err(StoreError::Internal(m)) && m@ == "Flow document is not an object"@),
            r is Ok <==> Store::flow_editable(*old(self), id@, skip_read_only),
            r matches Ok(f) ==> f == old(self).flows()[id@] && final(self).flows() == old(self).flows().remove(id@),
            r is Err ==> final(self).flows() == old(self).flows(),
            final(self).sources() == old(self).sources(),
            final(self).segments() == old(self).segments(),
            final(self).instances() == old(self).instances(),
            final(self).webhooks() == old(self).webhooks(),
            final(self).deletions() == old(self).deletions(),
            final(self).events() == old(self).events(),
            final(self).service() == old(self).service(),
            final(self).backends() == old(self).backends(),
    {
        match self.flows.get(id) {
            Some(f) => {
                if !skip_read_only && f.core.read_only {
                    return Err(StoreError::ReadOnly);
                }
                if !f.document.is_object() {
                    return Err(StoreError::Internal(String::from_str("Flow document is not an object")));
                }
            },
            None => {
                return Err(not_found("Flow", id));
            },
        }
        match self.flows.remove(id) {
            Some(f) => Ok(f),
            None => vstd::pervasive::unreached(),
        }
    }

    /// The flow exists, may be edited, and has an object document.
    pub open spec fn flow_editable(s: Store, id: Seq<char>, skip_read_only: bool) -> bool {
        &&& s.flows().contains_key(id)
        &&& !(!skip_read_only && s.flows()[id].core.read_only)
        &&& s.flows()[id].document is Object
    }

    /// `new` is the edited document `edited` stamped with the update time and a new version.
    pub open spec fn stamped(edited: Json, new: Json, now: Seq<char>, version: Seq<char>) -> bool {
        &&& new is Object
        &&& text_member(new, "metadata_updated"@) == Some(now)
        &&& text_member(new, "metadata_version"@) == Some(version)
        &&& forall|k: Seq<char>| k != "metadata_updated"@ && k != "metadata_version"@ ==> #[trigger] json_get(new, k) == json_get(edited, k)
    }

    /// Puts back an edited flow: its document stamped with the update time
    /// and a new version, its typed fields read again from the document.
    /// When they cannot be read, the stamped document is kept with the old
    /// typed fields and an internal error is reported.
    fn put_back_edited_flow(&mut self, id: &str, f: StoredFlow, edited: Json, stamp: &Stamp) -> (r: Result<(), StoreError>)
        requires
            old(self).wf(),
            edited is Object,
        ensures
            final(self).wf(),
            final(self).flows().contains_key(id@),
            final(self).flows() == old(self).flows().insert(id@, final(self).flows()[id@]),
            Store::stamped(edited, final(self).flows()[id@].document, stamp.now@, stamp.id@),
            r is Ok <==> has_core(final(self).flows()[id@].document),
            r is Ok ==> core_read_from(final(self).flows()[id@].core, final(self).flows()[id@].document),
            r is Err ==> final(self).flows()[id@].core == f.core && (r matches Err(StoreError::Internal(m)) && m@ == "Failed to rebuild FlowCore"@),
            final(self).sources() == old(self).sources(),
            final(self).segments() == old(self).segments(),
            final(self).instances() == old(self).instances(),
            final(self).webhooks() == old(self).webhooks(),
            final(self).deletions() == old(self).deletions(),
            final(self).events() == old(self).events(),
            final(self).service() == old(self).service(),
            final(self).backends() == old(self).backends(),
    {
        let mut d = edited;
        let ghost d0 = d;
        d.insert("metadata_updated".to_owned(), Json::Str(stamp.now.clone()));
        let ghost d1 = d;
        d.insert("metadata_version".to_owned(), Json::Str(stamp.id.clone()));
        proof {
            crate::flowdoc::lemma_server_keys_distinct();
            assert forall|k: Seq<char>| k != "metadata_updated"@ && k != "metadata_version"@ implies #[trigger] json_get(d, k) == json_get(d0, k) by {
                crate::json::lemma_get_with(d1, d->Object_0->Cons_0, d->Object_0->Cons_1, k);
                crate::json::lemma_get_with(d0, d1->Object_0->Cons_0, d1->Object_0->Cons_1, k);
            }
            crate::json::lemma_get_with(d1, d->Object_0->Cons_0, d->Object_0->Cons_1, "metadata_updated"@);
            crate::json::lemma_get_with(d0, d1->Object_0->Cons_0, d1->Object_0->Cons_1, "metadata_updated"@);
            crate::json::lemma_get_with(d1, d->Object_0->Cons_0, d->Object_0->Cons_1, "metadata_version"@);
        }
        let mut f = f;
        let result = match flow_core_from_document(&d) {
            Some(core) => {
                f.core = core;
                Ok(())
            },
            None => Err(StoreError::Internal(String::from_str("Failed to rebuild FlowCore"))),
        };
        f.document = d;
        let ghost fv = f;
        self.flows.insert(id.to_owned(), f);
        proof {
            assert(self.flows@[id@] == fv);
        }
        result
    }

    /// The change every flow edit makes on success: the flow `id` replaced
    /// by its edited document, stamped, with its typed fields read again.
    pub open spec fn flow_edited(old: Store, new: Store, id: Seq<char>, edited: Json, now: Seq<char>, version: Seq<char>) -> bool {
        &&& new.flows().contains_key(id)
        &&& new.flows() == old.flows().insert(id, new.flows()[id])
        &&& Store::stamped(edited, new.flows()[id].document, now, version)
        &&& core_read_from(new.flows()[id].core, new.flows()[id].document)
    }

    /// Sets a property of a writable flow's document.
    pub fn set_flow_property(&mut self, id: &str, property: &str, value: Json, stamp: &Stamp) -> (r: Result<(), StoreError>)
        requires
            old(self).wf(),
        ensures
            final(self).wf(),
            !old(self).flows().contains_key(id@) ==> (r matches Err(StoreError::NotFound(m)) && m@ == not_found_message("Flow"@, id@)),
            old(self).flows().contains_key(id@) && old(self).flows()[id@].core.read_only ==> r matches Err(StoreError::ReadOnly),
            !Store::flow_editable(*old(self), id@, false) ==> r is Err && final(self).flows() == old(self).flows(),
            Store::flow_editable(*old(self), id@, false) ==> exists|name: String| #![trigger crate::json::json_with(old(self).flows()[id@].document, property@, name, value)] name@ == property@ && {
                let edited = crate::json::json_with(old(self).flows()[id@].document, property@, name, value);
                &&& final(self).flows().contains_key(id@)
                &&& final(self).flows() == old(self).flows().insert(id@, final(self).flows()[id@])
                &&& Store::stamped(edited, final(self).flows()[id@].document, stamp.now@, stamp.id@)
                &&& (r is Ok <==> has_core(final(self).flows()[id@].document))
                &&& (r is Ok ==> core_read_from(final(self).flows()[id@].core, final(self).flows()[id@].document))
            },
            final(self).sources() == old(self).sources(),
            final(self).segments() == old(self).segments(),
            final(self).events() == old(self).events(),
            final(self).webhooks() == old(self).webhooks(),
    {
        let f = match self.take_flow_for_edit(id, false) {
            Ok(f) => f,
            Err(e) => {
                return Err(e);
            },
        };
        let mut d = f.document.copy();
        let name = property.to_owned();
        let ghost nv = name;
        d.insert(name, value);
        let ghost dv = d;
        let r = self.put_back_edited_flow(id, f, d, stamp);
        proof {
            assert(nv@ == property@);
            assert(dv == crate::json::json_with(old(self).flows()[id@].document, property@, nv, value));
            assert(self.flows() =~= old(self).flows().insert(id@, self.flows()[id@]));
        }
        r
    }

    /// Removes a property from a writable flow's document.
    pub fn delete_flow_property(&mut self, id: &str, property: &str, stamp: &Stamp) -> (r: Result<(), StoreError>)
        requires
            old(self).wf(),
        ensures
            final(self).wf(),
            !old(self).flows().contains_key(id@) ==> (r matches Err(StoreError::NotFound(m)) && m@ == not_found_message("Flow"@, id@)),
            old(self).flows().contains_key(id@) && old(self).flows()[id@].core.read_only ==> r matches Err(StoreError::ReadOnly),
            !Store::flow_editable(*old(self), id@, false) ==> r is Err && final(self).flows() == old(self).flows(),
            Store::flow_editable(*old(self), id@, false) ==> {
                let edited = crate::json::json_removed(old(self).flows()[id@].document, property@);
                &&& final(self).flows().contains_key(id@)
                &&& final(self).flows() == old(self).flows().insert(id@, final(self).flows()[id@])
                &&& Store::stamped(edited, final(self).flows()[id@].document, stamp.now@, stamp.id@)
                &&& (r is Ok <==> has_core(final(self).flows()[id@].document))
                &&& (r is Ok ==> core_read_from(final(self).flows()[id@].core, final(self).flows()[id@].document))
            },
            final(self).sources() == old(self).sources(),
            final(self).segments() == old(self).segments(),
            final(self).events() == old(self).events(),
            final(self).webhooks() == old(self).webhooks(),
    {
        let f = match self.take_flow_for_edit(id, false) {
            Ok(f) => f,
            Err(e) => {
                return Err(e);
            },
        };
        let mut d = f.document.copy();
        d.remove(property);
        let r = self.put_back_edited_flow(id, f, d, stamp);
        proof {
            assert(self.flows() =~= old(self).flows().insert(id@, self.flows()[id@]));
        }
        r
    }

    /// Sets whether a flow is read-only; allowed on read-only flows too.
    pub fn set_flow_read_only(&mut self, id: &str, value: bool, stamp: &Stamp) -> (r: Result<(), StoreError>)
        requires
            old(self).wf(),
        ensures
            final(self).wf(),
            !old(self).flows().contains_key(id@) ==> (r matches Err(StoreError::NotFound(m)) && m@ == not_found_message("Flow"@, id@)),
            !Store::flow_editable(*old(self), id@, true) ==> r is Err && final(self).flows() == old(self).flows(),
            Store::flow_editable(*old(self), id@, true) ==> exists|name: String| #![trigger crate::json::json_with(old(self).flows()[id@].document, "read_only"@, name, Json::Bool(value))] name@ == "read_only"@ && {
                let edited = crate::json::json_with(old(self).flows()[id@].document, "read_only"@, name, Json::Bool(value));
                &&& final(self).flows().contains_key(id@)
                &&& final(self).flows() == old(self).flows().insert(id@, final(self).flows()[id@])
                &&& Store::stamped(edited, final(self).flows()[id@].document, stamp.now@, stamp.id@)
                &&& (r is Ok <==> has_core(final(self).flows()[id@].document))
                &&& (r is Ok ==> core_read_from(final(self).flows()[id@].core, final(self).flows()[id@].document)
                    && final(self).flows()[id@].core.read_only == value)
            },
            final(self).sources() == old(self).sources(),
            final(self).segments() == old(self).segments(),
            final(self).events() == old(self).events(),
            final(self).webhooks() == old(self).webhooks(),
    {
        let f = match self.take_flow_for_edit(id, true) {
            Ok(f) => f,
            Err(e) => {
                return Err(e);
            },
        };
        let ghost old_core = f.core;
        let mut d = f.document.copy();
        let name = "read_only".to_owned();
        let ghost nv = name;
        d.insert(name, Json::Bool(value));
        let ghost dv = d;
        proof {
            crate::flowdoc::lemma_server_keys_distinct();
            reveal_strlit("read_only");
            reveal_strlit("source_id");
            reveal_strlit("format");
            assert("read_only"@.len() == 9);
        }
        let r = self.put_back_edited_flow(id, f, d, stamp);
        proof {
            assert(self.flows() =~= old(self).flows().insert(id@, self.flows()[id@]));
        }
        r
    }

    /// A flow document with a tag set in its `tags` member: the member is
    /// created when missing and left alone when it is not an object.
    pub open spec fn tag_set_in(doc: Json, r: Json, name: Seq<char>, value: TagValue) -> bool {
        &&& (r is Object <==> doc is Object)
        &&& forall|k: Seq<char>| k != "tags"@ ==> #[trigger] json_get(r, k) == json_get(doc, k)
        &&& ((doc is Object && (json_get(doc, "tags"@) is None || (json_get(doc, "tags"@) matches Some(Json::Object(_))))) ==> {
            &&& (json_get(r, "tags"@) matches Some(t) && t is Object)
            &&& (json_get(json_get(r, "tags"@)->0, name) matches Some(v) && crate::docs::json_tag_strings(v) == Some(crate::tags::tag_strings(value))
                && (v is Str <==> value is Single))
            &&& forall|q: Seq<char>| q != name ==> #[trigger] json_get(json_get(r, "tags"@)->0, q) == match json_get(doc, "tags"@) {
                Some(t0) => json_get(t0, q),
                None => None,
            }
        })
        &&& (!(doc is Object && (json_get(doc, "tags"@) is None || (json_get(doc, "tags"@) matches Some(Json::Object(_))))) ==> r == doc)
    }

    fn with_tag(doc: &Json, name: &str, value: &TagValue) -> (r: Json)
        ensures
            Store::tag_set_in(*doc, r, name@, *value),
    {
        let mut d = doc.copy();
        if !d.is_object() {
            return d;
        }
        let tags = match d.get("tags") {
            None => Json::empty_object(),
            Some(t) => {
                if t.is_object() {
                    t.copy()
                } else {
                    return d;
                }
            },
        };
        let ghost t0 = tags;
        let jv = crate::docs::tag_value_json(value);
        let ghost jvv = jv;
        let mut tags = tags;
        tags.insert(name.to_owned(), jv);
        let ghost t1 = tags;
        let ghost d0 = d;
        d.insert("tags".to_owned(), tags);
        proof {
            assert forall|k: Seq<char>| k != "tags"@ implies #[trigger] json_get(d, k) == json_get(*doc, k) by {
                crate::json::lemma_get_with(d0, d->Object_0->Cons_0, d->Object_0->Cons_1, k);
            }
            crate::json::lemma_get_with(d0, d->Object_0->Cons_0, d->Object_0->Cons_1, "tags"@);
            crate::json::lemma_get_with(t0, t1->Object_0->Cons_0, jvv, name@);
            assert forall|q: Seq<char>| q != name@ implies #[trigger] json_get(t1, q) == match json_get(*doc, "tags"@) {
                Some(x) => json_get(x, q),
                None => None,
            } by {
                crate::json::lemma_get_with(t0, t1->Object_0->Cons_0, jvv, q);
            }
        }
        d
    }

    /// A flow document with a tag removed from its `tags` member when that is an object.
    pub open spec fn tag_removed_in(doc: Json, r: Json, name: Seq<char>) -> bool {
        &&& (r is Object <==> doc is Object)
        &&& forall|k: Seq<char>| k != "tags"@ ==> #[trigger] json_get(r, k) == json_get(doc, k)
        &&& ((doc is Object && (json_get(doc, "tags"@) matches Some(Json::Object(_)))) ==> json_get(r, "tags"@) == Some(
            crate::json::json_removed(json_get(doc, "tags"@)->0, name),
        ))
        &&& (!(doc is Object && (json_get(doc, "tags"@) matches Some(Json::Object(_)))) ==> r == doc)
    }

    fn without_tag(doc: &Json, name: &str) -> (r: Json)
        ensures
            Store::tag_removed_in(*doc, r, name@),
    {
        let mut d = doc.copy();
        if !d.is_object() {
            return d;
        }
        let tags = match d.get("tags") {
            Some(t) => {
                if t.is_object() {
                    t.copy()
                } else {
                    return d;
                }
            },
            None => {
                return d;
            },
        };
        let mut tags = tags;
        tags.remove(name);
        let ghost tv = tags;
        let ghost d0 = d;
        d.insert("tags".to_owned(), tags);
        proof {
            assert forall|k: Seq<char>| k != "tags"@ implies #[trigger] json_get(d, k) == json_get(*doc, k) by {
                crate::json::lemma_get_with(d0, d->Object_0->Cons_0, d->Object_0->Cons_1, k);
            }
            crate::json::lemma_get_with(d0, d->Object_0->Cons_0, d->Object_0->Cons_1, "tags"@);
        }
        d
    }

    /// Sets a tag on a writable flow.
    pub fn set_flow_tag(&mut self, id: &str, name: &str, value: TagValue, stamp: &Stamp) -> (r: Result<(), StoreError>)
        requires
            old(self).wf(),
        ensures
            final(self).wf(),
            !old(self).flows().contains_key(id@) ==> (r matches Err(StoreError::NotFound(m)) && m@ == not_found_message("Flow"@, id@)),
            old(self).flows().contains_key(id@) && old(self).flows()[id@].core.read_only ==> r matches Err(StoreError::ReadOnly),
            !Store::flow_editable(*old(self), id@, false) ==> r is Err && final(self).flows() == old(self).flows(),
            Store::flow_editable(*old(self), id@, false) ==> exists|edited: Json| #[trigger] Store::tag_set_in(old(self).flows()[id@].document, edited, name@, value) && {
                &&& final(self).flows().contains_key(id@)
                &&& final(self).flows() == old(self).flows().insert(id@, final(self).flows()[id@])
                &&& Store::stamped(edited, final(self).flows()[id@].document, stamp.now@, stamp.id@)
                &&& (r is Ok <==> has_core(final(self).flows()[id@].document))
                &&& (r is Ok ==> core_read_from(final(self).flows()[id@].core, final(self).flows()[id@].document))
            },
            final(self).sources() == old(self).sources(),
            final(self).segments() == old(self).segments(),
            final(self).events() == old(self).events(),
            final(self).webhooks() == old(self).webhooks(),
    {
        let f = match self.take_flow_for_edit(id, false) {
            Ok(f) => f,
            Err(e) => {
                return Err(e);
            },
        };
        let d = Store::with_tag(&f.document, name, &value);
        let ghost dv = d;
        let r = self.put_back_edited_flow(id, f, d, stamp);
        proof {
            assert(self.flows() =~= old(self).flows().insert(id@, self.flows()[id@]));
            assert(Store::tag_set_in(old(self).flows()[id@].document, dv, name@, value));
        }
        r
    }

    /// Removes a tag from a writable flow.
    pub fn delete_flow_tag(&mut self, id: &str, name: &str, stamp: &Stamp) -> (r: Result<(), StoreError>)
        requires
            old(self).wf(),
        ensures
            final(self).wf(),
            !old(self).flows().contains_key(id@) ==> (r matches Err(StoreError::NotFound(m)) && m@ == not_found_message("Flow"@, id@)),
            old(self).flows().contains_key(id@) && old(self).flows()[id@].core.read_only ==> r matches Err(StoreError::ReadOnly),
            !Store::flow_editable(*old(self), id@, false) ==> r is Err && final(self).flows() == old(self).flows(),
            Store::flow_editable(*old(self), id@, false) ==> exists|edited: Json| #[trigger] Store::tag_removed_in(old(self).flows()[id@].document, edited, name@) && {
                &&& final(self).flows().contains_key(id@)
                &&& final(self).flows() == old(self).flows().insert(id@, final(self).flows()[id@])
                &&& Store::stamped(edited, final(self).flows()[id@].document, stamp.now@, stamp.id@)
                &&& (r is Ok <==> has_core(final(self).flows()[id@].document))
                &&& (r is Ok ==> core_read_from(final(self).flows()[id@].core, final(self).flows()[id@].document))
            },
            final(self).sources() == old(self).sources(),
            final(self).segments() == old(self).segments(),
            final(self).events() == old(self).events(),
            final(self).webhooks() == old(self).webhooks(),
    {
        let f = match self.take_flow_for_edit(id, false) {
            Ok(f) => f,
            Err(e) => {
                return Err(e);
            },
        };
        let d = Store::without_tag(&f.document, name);
        let ghost dv = d;
        let r = self.put_back_edited_flow(id, f, d, stamp);
        proof {
            assert(self.flows() =~= old(self).flows().insert(id@, self.flows()[id@]));
            assert(Store::tag_removed_in(old(self).flows()[id@].document, dv, name@));
        }
        r
    }

    /// The tags of a flow: `None` if there is no such flow, `Some(None)` if it has none.
    pub fn get_flow_tags(&self, id: &str) -> (r: Option<Option<&Tags>>)
        ensures
            match r {
                Some(t) => self.flows().contains_key(id@) && match t {
                    Some(t) => self.flows()[id@].core.tags == Some(*t),
                    None => self.flows()[id@].core.tags is None,
                },
                None => !self.flows().contains_key(id@),
            },
    {
        match self.flows.get(id) {
            Some(f) => match &f.core.tags {
                Some(t) => Some(Some(t)),
                None => Some(None),
            },
            None => None,
        }
    }

    /// A tag value of a flow.
    pub fn get_flow_tag(&self, id: &str, name: &str) -> (r: Option<&TagValue>)
        ensures
            match r {
                Some(v) => self.flows().contains_key(id@) && (self.flows()[id@].core.tags matches Some(t)
                    && t@.contains_key(name@) && t@[name@] == *v),
                None => !self.flows().contains_key(id@) || !tags_or_empty(self.flows()[id@].core.tags).contains_key(name@),
            },
    {
        match self.flows.get(id) {
            Some(f) => match &f.core.tags {
                Some(t) => t.get(name),
                None => None,
            },
            None => None,
        }
    }

    /// A property of a flow's document: `None` if there is no such flow,
    /// `Some(None)` if the property is missing or null.
    pub fn get_flow_property(&self, id: &str, property: &str) -> (r: Option<Option<&Json>>)
        ensures
            match r {
                Some(p) => self.flows().contains_key(id@) && match p {
                    Some(v) => json_get(self.flows()[id@].document, property@) == Some(*v) && *v != Json::Null,
                    None => json_get(self.flows()[id@].document, property@) is None
                        || json_get(self.flows()[id@].document, property@) == Some(Json::Null),
                },
                None => !self.flows().contains_key(id@),
            },
    {
        match self.flows.get(id) {
            Some(f) => match f.document.get(property) {
                Some(Json::Null) => Some(None),
                Some(v) => Some(Some(v)),
                None => Some(None),
            },
            None => None,
        }
    }

    /// Whether a flow is read-only; `None` if there is no such flow.
    pub fn get_flow_read_only(&self, id: &str) -> (r: Option<bool>)
        ensures
            match r {
                Some(b) => self.flows().contains_key(id@) && b == self.flows()[id@].core.read_only,
                None => !self.flows().contains_key(id@),
            },
    {
        match self.flows.get(id) {
            Some(f) => Some(f.core.read_only),
            None => None,
        }
    }

    /// The ids a flow lists as its collection's children, in order.
    pub open spec fn children_of(core: FlowCore) -> Seq<Seq<char>> {
        child_ids_of(core)
    }

    /// Whether every listed id is a flow of the store.
    pub open spec fn all_flows_exist(self, ids: Seq<(Seq<char>, Seq<char>)>) -> bool {
        forall|i: int| 0 <= i < ids.len() ==> self.flows().contains_key(#[trigger] ids[i].0)
    }

    /// Sets a writable flow's collection: every child must be a flow. The
    /// children join the flow's collections and the old ones leave; the
    /// flow's source gets the children's sources (with their roles) as its
    /// collection.
    #[verifier::loop_isolation(false)]
    pub fn set_flow_collection(&mut self, id: &str, value: Json, stamp: &Stamp) -> (r: Result<(), StoreError>)
        requires
            old(self).wf(),
        ensures
            final(self).wf(),
            !old(self).flows().contains_key(id@) ==> (r matches Err(StoreError::NotFound(m)) && m@ == not_found_message("Flow"@, id@)),
            old(self).flows().contains_key(id@) && old(self).flows()[id@].core.read_only ==> r matches Err(StoreError::ReadOnly),
            old(self).flows().contains_key(id@) && !old(self).flows()[id@].core.read_only && !old(self).all_flows_exist(collection_items_of(value))
                ==> (r matches Err(StoreError::BadRequest(m)) && exists|i: int| 0 <= i < collection_items_of(value).len()
                    && !old(self).flows().contains_key(#[trigger] collection_items_of(value)[i].0)
                    && m@ == "Referenced flow "@ + collection_items_of(value)[i].0 + " does not exist"@),
            r is Ok <==> old(self).flows().contains_key(id@) && !old(self).flows()[id@].core.read_only
                && old(self).all_flows_exist(collection_items_of(value)) && has_core(old(self).flows()[id@].document),
            r is Ok ==> {
                let child_ids = collection_items_of(value).map_values(|p: (Seq<char>, Seq<char>)| p.0);
                let old_children = Store::children_of(old(self).flows()[id@].core);
                let items = source_items_of(old(self).flows(), collection_items_of(value));
                let src = old(self).flows()[id@].core.source_id@;
                &&& final(self).flows().dom() == old(self).flows().dom()
                &&& json_get(final(self).flows()[id@].document, "flow_collection"@) == Some(value)
                &&& (forall|k: Seq<char>| #[trigger] old(self).flows().contains_key(k) && k != id@ ==> {
                    let remove = old_children.contains(k);
                    let add = child_ids.contains(k);
                    if remove || add {
                        relinked(old(self).flows()[k], final(self).flows()[k], id@, remove, add)
                    } else {
                        final(self).flows()[k] == old(self).flows()[k]
                    }
                })
                &&& final(self).sources().dom() == old(self).sources().dom()
                &&& (forall|k: Seq<char>| #[trigger] old(self).sources().contains_key(k) ==> source_relinked(
                    old(self).sources()[k],
                    final(self).sources()[k],
                    src,
                    source_ids_of(old(self).flows(), old_children).contains(k),
                    items.map_values(|p: (Seq<char>, Seq<char>)| p.0).contains(k) && k != src,
                    k == src,
                    Some(items),
                ))
            },
            final(self).segments() == old(self).segments(),
            final(self).events() == old(self).events(),
            final(self).webhooks() == old(self).webhooks(),
            final(self).deletions() == old(self).deletions(),
    {
        let items = extract_collection_items(&value);
        let mut child_ids: Vec<String> = Vec::new();
        let mut i: usize = 0;
        while i < items.len()
            invariant
                i <= items@.len(),
                child_ids@.len() == i,
                forall|j: int| 0 <= j < i ==> #[trigger] child_ids@[j]@ == items@[j].0@,
            decreases items@.len() - i,
        {
            child_ids.push(items[i].0.clone());
            i = i + 1;
        }
        let ghost cv = collection_items_of(value);
        assert(string_views(child_ids@) =~= cv.map_values(|p: (Seq<char>, Seq<char>)| p.0));
        assert(pair_views(items@) =~= cv);
        let (parent_source_id, old_child_ids) = match self.flows.get(id) {
            Some(f) => {
                if f.core.read_only {
                    return Err(StoreError::ReadOnly);
                }
                (f.core.source_id.clone(), extract_collection_child_ids_from_core(&f.core))
            },
            None => {
                return Err(not_found("Flow", id));
            },
        };
        let mut j: usize = 0;
        while j < child_ids.len()
            invariant
                j <= child_ids@.len(),
                child_ids@.len() == cv.len(),
                forall|x: int| 0 <= x < child_ids@.len() ==> #[trigger] child_ids@[x]@ == cv[x].0,
                forall|x: int| 0 <= x < j ==> self.flows().contains_key(#[trigger] cv[x].0),
            decreases child_ids@.len() - j,
        {
            if !self.flows.contains_key(child_ids[j].as_str()) {
                return Err(StoreError::BadRequest(
                    String::from_str("Referenced flow ").concat(child_ids[j].as_str()).concat(" does not exist"),
                ));
            }
            j = j + 1;
        }
        let source_items = build_source_collection_items(&self.flows, &items);
        let old_source_child_ids = resolve_flow_ids_to_source_ids(&self.flows, &old_child_ids);
        let f = match self.take_flow_for_edit(id, false) {
            Ok(f) => f,
            Err(e) => {
                return Err(e);
            },
        };
        let mut d = f.document.copy();
        let ghost fd = f.document;
        let ghost value_v = value;
        let fc_name = "flow_collection".to_owned();
        let ghost fc_name_v = fc_name;
        d.insert(fc_name, value);
        proof {
            reveal_strlit("flow_collection");
            reveal_strlit("metadata_updated");
            reveal_strlit("metadata_version");
            assert("flow_collection"@.len() != "metadata_updated"@.len());
            assert("flow_collection"@[0] != "metadata_version"@[0]);
            crate::json::lemma_get_with(fd, fc_name_v, value_v, "flow_collection"@);
            reveal_strlit("source_id");
            reveal_strlit("format");
            assert("source_id"@[0] != "flow_collection"@[0] && "source_id"@[0] != "metadata_updated"@[0]);
            assert("format"@.len() != "flow_collection"@.len() && "format"@[0] != "metadata_updated"@[0]);
            crate::json::lemma_get_with(fd, fc_name_v, value_v, "source_id"@);
            crate::json::lemma_get_with(fd, fc_name_v, value_v, "format"@);
        }
        match self.put_back_edited_flow(id, f, d, stamp) {
            Ok(()) => {},
            Err(e) => {
                return Err(e);
            },
        }
        let ghost mid = *self;
        assert(json_get(mid.flows()[id@].document, "flow_collection"@) == Some(value_v));
        let ghost si = source_items@;
        proof {
            assert(mid.flows().dom() =~= old(self).flows().dom());
            assert(forall|k: Seq<char>| k != id@ && #[trigger] old(self).flows().contains_key(k) ==> mid.flows()[k] == old(self).flows()[k]);
            assert(item_views(si) == source_items_of(old(self).flows(), cv));
            assert(string_views(old_child_ids@) == Store::children_of(old(self).flows()[id@].core));
        }
        relink_children(&mut self.flows, &old_child_ids, &child_ids, id);
        proof {
            reveal_strlit("collected_by");
            assert("flow_collection"@[0] != "collected_by"@[0]);
            if string_views(old_child_ids@).contains(id@) || string_views(child_ids@).contains(id@) {
                crate::collection::lemma_relinked_keeps(
                    mid.flows()[id@],
                    self.flows()[id@],
                    id@,
                    string_views(old_child_ids@).contains(id@),
                    string_views(child_ids@).contains(id@),
                    "flow_collection"@,
                );
            }
        }
        sync_source_collection(&mut self.sources, parent_source_id.as_str(), Some(source_items), &old_source_child_ids);
        proof {
            assert forall|k: Seq<char>| #[trigger] self.sources@.contains_key(k) implies self.sources@[k].id@ == k by {
                assert(old(self).sources@.contains_key(k));
            }
            assert(item_views(si).map_values(|p: (Seq<char>, Seq<char>)| p.0) =~= si.map_values(|c: CollectionItem| c.id@));
            assert(self.flows().dom() =~= old(self).flows().dom());
        }
        Ok(())
    }

    /// Removes a writable flow's collection: the old children leave the
    /// flow's collections and their sources leave its source's; the
    /// source's collection is cleared.
    pub fn delete_flow_collection(&mut self, id: &str, stamp: &Stamp) -> (r: Result<(), StoreError>)
        requires
            old(self).wf(),
        ensures
            final(self).wf(),
            !old(self).flows().contains_key(id@) ==> (r matches Err(StoreError::NotFound(m)) && m@ == not_found_message("Flow"@, id@)),
            old(self).flows().contains_key(id@) && old(self).flows()[id@].core.read_only ==> r matches Err(StoreError::ReadOnly),
            r is Ok ==> {
                let old_children = Store::children_of(old(self).flows()[id@].core);
                let src = old(self).flows()[id@].core.source_id@;
                &&& final(self).flows().contains_key(id@)
                &&& json_get(final(self).flows()[id@].document, "flow_collection"@) is None
                &&& final(self).flows().dom() == old(self).flows().dom()
                &&& (forall|k: Seq<char>| #[trigger] old(self).flows().contains_key(k) && k != id@ ==> if old_children.contains(k) {
                    relinked(old(self).flows()[k], final(self).flows()[k], id@, true, false)
                } else {
                    final(self).flows()[k] == old(self).flows()[k]
                })
                &&& final(self).sources().dom() == old(self).sources().dom()
                &&& (forall|k: Seq<char>| #[trigger] old(self).sources().contains_key(k) ==> source_relinked(
                    old(self).sources()[k],
                    final(self).sources()[k],
                    src,
                    source_ids_of(old(self).flows(), old_children).contains(k),
                    false,
                    k == src,
                    None,
                ))
            },
            r is Ok ==> old(self).flows().contains_key(id@) && !old(self).flows()[id@].core.read_only,
            final(self).segments() == old(self).segments(),
            final(self).events() == old(self).events(),
            final(self).webhooks() == old(self).webhooks(),
            final(self).deletions() == old(self).deletions(),
    {
        let (parent_source_id, old_child_ids) = match self.flows.get(id) {
            Some(f) => {
                if f.core.read_only {
                    return Err(StoreError::ReadOnly);
                }
                (f.core.source_id.clone(), extract_collection_child_ids_from_core(&f.core))
            },
            None => {
                return Err(not_found("Flow", id));
            },
        };
        let old_source_child_ids = resolve_flow_ids_to_source_ids(&self.flows, &old_child_ids);
        let f = match self.take_flow_for_edit(id, false) {
            Ok(f) => f,
            Err(e) => {
                return Err(e);
            },
        };
        let mut d = f.document.copy();
        d.remove("flow_collection");
        proof {
            crate::json::lemma_get_removed(f.document, "flow_collection"@, "flow_collection"@);
            crate::flowdoc::lemma_server_keys_distinct();
            reveal_strlit("flow_collection");
        }
        match self.put_back_edited_flow(id, f, d, stamp) {
            Ok(()) => {},
            Err(e) => {
                return Err(e);
            },
        }
        let none: Vec<String> = Vec::new();
        assert(string_views(none@) =~= Seq::<Seq<char>>::empty());
        relink_children(&mut self.flows, &old_child_ids, &none, id);
        sync_source_collection(&mut self.sources, parent_source_id.as_str(), None, &old_source_child_ids);
        proof {
            assert forall|k: Seq<char>| #[trigger] self.sources@.contains_key(k) implies self.sources@[k].id@ == k by {
                assert(old(self).sources@.contains_key(k));
            }
        }
        Ok(())
    }

    /// Deletes a flow. A read-only flow is refused. Its children leave its
    /// collections and their sources leave its source's collections. With
    /// no segments the deletion is done and a deleted event recorded; with
    /// segments a deletion request is stored, and the caller removes the
    /// segments in the background with `set_deletion_status` and
    /// `cleanup_flow_segments`.
    pub fn delete_flow(&mut self, id: &str, stamp: &Stamp) -> (r: Result<DeleteResult, StoreError>)
        requires
            old(self).wf(),
        ensures
            final(self).wf(),
            !old(self).flows().contains_key(id@) ==> (r matches Ok(DeleteResult::NotFound) && final(self).flows() == old(self).flows()
                && final(self).events() == old(self).events() && final(self).deletions() == old(self).deletions()
                && final(self).sources() == old(self).sources()),
            old(self).flows().contains_key(id@) && old(self).flows()[id@].core.read_only ==> (r matches Err(StoreError::ReadOnly)
                && final(self).flows() == old(self).flows() && final(self).events() == old(self).events()
                && final(self).sources() == old(self).sources()),
            old(self).flows().contains_key(id@) && !old(self).flows()[id@].core.read_only ==> {
                let old_children = Store::children_of(old(self).flows()[id@].core);
                let src = old(self).flows()[id@].core.source_id@;
                let src_children = source_ids_of(old(self).flows(), old_children);
                &&& final(self).flows().dom() == old(self).flows().dom().remove(id@)
                &&& (forall|k: Seq<char>| #[trigger] old(self).flows().contains_key(k) && k != id@ ==> if old_children.contains(k) {
                    relinked(old(self).flows()[k], final(self).flows()[k], id@, true, false)
                } else {
                    final(self).flows()[k] == old(self).flows()[k]
                })
                &&& (src_children.len() == 0 ==> final(self).sources() == old(self).sources())
                &&& (src_children.len() > 0 ==> final(self).sources().dom() == old(self).sources().dom() && forall|k: Seq<char>|
                    #[trigger] old(self).sources().contains_key(k) ==> source_relinked(
                    old(self).sources()[k],
                    final(self).sources()[k],
                    src,
                    src_children.contains(k),
                    false,
                    k == src,
                    None,
                ))
                &&& (old(self).segs_of(id@).len() == 0 ==> (r matches Ok(DeleteResult::Deleted))
                    && final(self).events().len() == old(self).events().len() + 1
                    && final(self).events().take(old(self).events().len() as int) == old(self).events()
                    && final(self).events().last() is FlowDeleted
                    && crate::webhook::event_flow_id(final(self).events().last()) == Some(id@)
                    && crate::webhook::event_source_id(final(self).events().last()) == Some(src)
                    && final(self).deletions() == old(self).deletions())
                &&& (old(self).segs_of(id@).len() > 0 ==> (r matches Ok(DeleteResult::Async(req)) && {
                    &&& final(self).deletions() == old(self).deletions().insert(stamp.id@, *req)
                    &&& req.id@ == stamp.id@ && req.flow_id@ == id@ && req.timerange_to_delete@ == "_"@
                    &&& opt_str_view(req.timerange_remaining) == Some("_"@) && req.delete_flow
                    &&& req.status == DeletionStatus::Created && opt_str_view(req.created) == Some(stamp.now@)
                    &&& opt_str_view(req.created_by) == Some("server"@) && req.updated is None && req.expiry is None
                    &&& req.error is None
                }) && final(self).events() == old(self).events())
            },
            final(self).segments() == old(self).segments(),
            final(self).webhooks() == old(self).webhooks(),
            final(self).instances() == old(self).instances(),
    {
        let has_segments = match self.segments.get(id) {
            Some(v) => v.len() > 0,
            None => false,
        };
        let (source_id, flow_cb, fc_child_ids) = match self.flows.get(id) {
            Some(f) => {
                if f.core.read_only {
                    return Err(StoreError::ReadOnly);
                }
                (f.core.source_id.clone(), strings_or_empty(&f.core.collected_by), extract_collection_child_ids_from_core(&f.core))
            },
            None => {
                return Ok(DeleteResult::NotFound);
            },
        };
        let old_source_child_ids = resolve_flow_ids_to_source_ids(&self.flows, &fc_child_ids);
        let none: Vec<String> = Vec::new();
        assert(string_views(none@) =~= Seq::<Seq<char>>::empty());
        relink_children(&mut self.flows, &fc_child_ids, &none, id);
        self.flows.remove(id);
        if old_source_child_ids.len() > 0 {
            sync_source_collection(&mut self.sources, source_id.as_str(), None, &old_source_child_ids);
        }
        proof {
            assert forall|k: Seq<char>| #[trigger] self.sources@.contains_key(k) implies self.sources@[k].id@ == k by {
                assert(old(self).sources@.contains_key(k));
            }
            assert(self.flows().dom() =~= old(self).flows().dom().remove(id@));
        }
        if !has_segments {
            self.dispatch_flow_deleted(id, source_id.as_str(), flow_cb);
            return Ok(DeleteResult::Deleted);
        }
        let request = DeletionRequest {
            id: stamp.id.clone(),
            flow_id: id.to_owned(),
            timerange_to_delete: String::from_str("_"),
            timerange_remaining: Some(String::from_str("_")),
            delete_flow: true,
            status: DeletionStatus::Created,
            created: Some(stamp.now.clone()),
            created_by: Some(String::from_str("server")),
            updated: None,
            expiry: None,
            error: None,
        };
        let copy = request.copy();
        self.deletion_requests.insert(stamp.id.clone(), request);
        proof {
            assert forall|k: Seq<char>| #[trigger] self.deletion_requests@.contains_key(k) implies self.deletion_requests@[k].id@ == k by {
                if k != stamp.id@ {
                    assert(old(self).deletion_requests@.contains_key(k));
                }
            }
        }
        Ok(DeleteResult::Async(Box::new(copy)))
    }

    /// Records that a flow was deleted.
    pub fn dispatch_flow_deleted(&mut self, flow_id: &str, source_id: &str, flow_cb: Vec<String>)
        ensures
            final(self).events().len() == old(self).events().len() + 1,
            final(self).events().take(old(self).events().len() as int) == old(self).events(),
            final(self).events().last() is FlowDeleted,
            crate::webhook::event_flow_id(final(self).events().last()) == Some(flow_id@),
            crate::webhook::event_source_id(final(self).events().last()) == Some(source_id@),
            crate::webhook::event_flow_collected_by(final(self).events().last()) == string_views(flow_cb@),
            crate::webhook::event_source_collected_by(final(self).events().last()) == (if old(self).sources().contains_key(source_id@) {
                list_or_empty(old(self).sources()[source_id@].collected_by)
            } else {
                Seq::empty()
            }),
            final(self).sources() == old(self).sources(),
            final(self).flows() == old(self).flows(),
            final(self).segments() == old(self).segments(),
            final(self).instances() == old(self).instances(),
            final(self).webhooks() == old(self).webhooks(),
            final(self).deletions() == old(self).deletions(),
            final(self).service() == old(self).service(),
            final(self).backends() == old(self).backends(),
    {
        let source_cb = match self.sources.get(source_id) {
            Some(src) => strings_or_empty(&src.collected_by),
            None => {
                let v: Vec<String> = Vec::new();
                assert(string_views(v@) =~= Seq::<Seq<char>>::empty());
                v
            },
        };
        self.events.push(StoreEvent::FlowDeleted {
            flow_id: flow_id.to_owned(),
            source_id: source_id.to_owned(),
            flow_collected_by: flow_cb,
            source_collected_by: source_cb,
        });
    }

    /// Removes all of a flow's segments.
    pub fn cleanup_flow_segments(&mut self, flow_id: &str)
        requires
            old(self).wf(),
        ensures
            final(self).wf(),
            final(self).segments() == old(self).segments().remove(flow_id@),
            final(self).segs_of(flow_id@) == Seq::<StoredSegment>::empty(),
            final(self).sources() == old(self).sources(),
            final(self).flows() == old(self).flows(),
            final(self).events() == old(self).events(),
            final(self).webhooks() == old(self).webhooks(),
            final(self).deletions() == old(self).deletions(),
    {
        self.segments.remove(flow_id);
    }

    /// Sets a deletion request's status with its update time and error; a
    /// request that is done has nothing remaining. An unknown id changes nothing.
    pub fn set_deletion_status(&mut self, request_id: &str, status: DeletionStatus, error: Option<Json>, now: &str)
        requires
            old(self).wf(),
        ensures
            final(self).wf(),
            !old(self).deletions().contains_key(request_id@) ==> final(self).deletions() == old(self).deletions(),
            old(self).deletions().contains_key(request_id@) ==> {
                let a = old(self).deletions()[request_id@];
                let b = final(self).deletions()[request_id@];
                &&& final(self).deletions() == old(self).deletions().insert(request_id@, b)
                &&& b.status == status && opt_str_view(b.updated) == Some(now@) && b.error == error
                &&& b.timerange_remaining == (if status == DeletionStatus::Done { None } else { a.timerange_remaining })
                &&& b.id == a.id && b.flow_id == a.flow_id && b.timerange_to_delete == a.timerange_to_delete
                &&& b.delete_flow == a.delete_flow && b.created == a.created && b.created_by == a.created_by
                &&& b.expiry == a.expiry
            },
            final(self).sources() == old(self).sources(),
            final(self).flows() == old(self).flows(),
            final(self).segments() == old(self).segments(),
            final(self).events() == old(self).events(),
            final(self).webhooks() == old(self).webhooks(),
    {
        proof {
            if old(self).deletion_requests@.contains_key(request_id@) {
                assert(old(self).deletion_requests@[request_id@].id@ == request_id@);
            }
        }
        match self.deletion_requests.remove(request_id) {
            Some(req) => {
                let mut req = req;
                if status == DeletionStatus::Done {
                    req.timerange_remaining = None;
                }
                req.status = status;
                req.updated = Some(now.to_owned());
                req.error = error;
                let ghost rv = req;
                self.deletion_requests.insert(request_id.to_owned(), req);
                proof {
                    assert(self.deletion_requests@ =~= old(self).deletion_requests@.insert(request_id@, rv));
                    assert forall|k: Seq<char>| #[trigger] self.deletion_requests@.contains_key(k) implies self.deletion_requests@[k].id@ == k by {
                        if k != request_id@ {
                            assert(old(self).deletion_requests@.contains_key(k));
                        }
                    }
                }
            },
            None => {},
        }
    }

    /// A deletion request by id.
    pub fn get_deletion_request(&self, id: &str) -> (r: Option<&DeletionRequest>)
        ensures
            match r {
                Some(d) => self.deletions().contains_key(id@) && *d == self.deletions()[id@],
                None => !self.deletions().contains_key(id@),
            },
    {
        self.deletion_requests.get(id)
    }

    /// Whether a finished request is old enough to forget: done or failed,
    /// updated at a time that parses and is not after `cutoff`.
    pub open spec fn request_expired(d: DeletionRequest, cutoff: (int, int)) -> bool {
        &&& (d.status == DeletionStatus::Done || d.status == DeletionStatus::Error)
        &&& d.updated matches Some(u) && crate::sys::rfc3339_instant_of(u@) matches Some(t) && !(t.0 > cutoff.0 || (t.0 == cutoff.0 && t.1 > cutoff.1))
    }

    /// Lists the deletion requests in id order, after forgetting the finished
    /// ones updated 60 seconds or more before the stamp's time (none are
    /// forgotten if that time does not parse).
    pub fn list_deletion_requests(&mut self, stamp: &Stamp) -> (r: Vec<&DeletionRequest>)
        requires
            old(self).wf(),
        ensures
            final(self).wf(),
            match crate::sys::rfc3339_instant_of(stamp.now@) {
                Some(now) => final(self).deletions() == old(self).deletions().restrict(
                    old(self).deletions().dom().filter(|k: Seq<char>| !Store::request_expired(old(self).deletions()[k], (now.0 - 60, now.1))),
                ),
                None => final(self).deletions() == old(self).deletions(),
            },
            r@.len() == final(self).deletions().dom().len(),
            forall|i: int| 0 <= i < r@.len() ==> final(self).deletions().contains_key((#[trigger] r@[i]).id@) && final(self).deletions()[r@[i].id@] == *r@[i],
            forall|i: int, j: int| 0 <= i < j < r@.len() ==> crate::order::seq_lt(r@[i].id@, r@[j].id@),
            final(self).sources() == old(self).sources(),
            final(self).flows() == old(self).flows(),
            final(self).segments() == old(self).segments(),
            final(self).events() == old(self).events(),
            final(self).webhooks() == old(self).webhooks(),
    {
        match crate::sys::rfc3339_instant(stamp.now.as_str()) {
            Some((secs, nanos)) => {
                let cutoff_secs: i128 = secs as i128 - 60;
                let mut taken: StrMap<DeletionRequest> = StrMap::new();
                std::mem::swap(&mut taken, &mut self.deletion_requests);
                let ghost m = taken@;
                let ghost ks = taken.keys();
                let entries = taken.into_entries();
                let n = entries.len();
                let mut entries = entries;
                let ghost all = entries@;
                let mut kept: StrMap<DeletionRequest> = StrMap::new();
                let mut i: usize = n;
                let ghost target = m.restrict(m.dom().filter(|k: Seq<char>| !Store::request_expired(m[k], (secs - 60, nanos as int))));
                while i > 0
                    invariant
                        i <= n,
                        n == all.len(),
                        entries@ == all.take(i as int),
                        all.len() == ks.len(),
                        forall|j: int| 0 <= j < all.len() ==> (#[trigger] all[j]).0@ == ks[j] && m[all[j].0@] == all[j].1,
                        ordered_keys_of(ks, m),
                        cutoff_secs == secs - 60,
                        target == m.restrict(m.dom().filter(|k: Seq<char>| !Store::request_expired(m[k], (secs - 60, nanos as int)))),
                        forall|k: Seq<char>| #[trigger] kept@.contains_key(k) <==> exists|j: int| i <= j < n && ks[j] == k && target.contains_key(k),
                        forall|k: Seq<char>| #[trigger] kept@.contains_key(k) ==> kept@[k] == m[k],
                    decreases i,
                {
                    let (k, d) = entries.pop().unwrap();
                    i = i - 1;
                    assert(all[i as int] == (k, d));
                    let finished = d.status == DeletionStatus::Done || d.status == DeletionStatus::Error;
                    let expired = finished && match &d.updated {
                        Some(u) => match crate::sys::rfc3339_instant(u.as_str()) {
                            Some((s2, n2)) => !((s2 as i128) > cutoff_secs || ((s2 as i128) == cutoff_secs && n2 > nanos)),
                            None => false,
                        },
                        None => false,
                    };
                    assert(expired == Store::request_expired(d, (secs - 60, nanos as int)));
                    let ghost before = kept@;
                    if !expired {
                        kept.insert(k, d);
                    }
                    proof {
                        assert forall|k2: Seq<char>| #[trigger] kept@.contains_key(k2) <==> exists|j: int| i <= j < n && ks[j] == k2 && target.contains_key(k2) by {
                            if k2 == ks[i as int] {
                                if !expired {
                                    assert(target.contains_key(k2));
                                }
                            } else {
                                if kept@.contains_key(k2) {
                                    assert(before.contains_key(k2));
                                }
                            }
                        }
                    }
                }
                proof {
                    assert forall|k: Seq<char>| kept@.contains_key(k) <==> target.contains_key(k) by {
                        if target.contains_key(k) {
                            let j = choose|j: int| 0 <= j < ks.len() && ks[j] == k;
                        }
                    }
                    assert(kept@ =~= target);
                }
                self.deletion_requests = kept;
                proof {
                    assert forall|k: Seq<char>| #[trigger] self.deletion_requests@.contains_key(k) implies self.deletion_requests@[k].id@ == k by {
                        assert(old(self).deletion_requests@.contains_key(k));
                    }
                }
            },
            None => {},
        }
        let n = self.deletion_requests.len();
        let ghost ks = self.deletion_requests.keys();
        let mut out: Vec<&DeletionRequest> = Vec::new();
        let mut i: usize = 0;
        while i < n
            invariant
                i <= n,
                n == ks.len(),
                ks == self.deletion_requests.keys(),
                ordered_keys_of(ks, self.deletion_requests@),
                self.wf(),
                out@.len() == i,
                forall|a: int| 0 <= a < i ==> (#[trigger] out@[a]).id@ == ks[a] && self.deletions()[ks[a]] == *out@[a],
            decreases n - i,
        {
            let (k, d) = self.deletion_requests.entry_at(i);
            proof {
                assert(d.id@ == k@);
            }
            out.push(d);
            i = i + 1;
        }
        out
    }

    /// The ids of the flows of a source, in id order.
    fn flow_ids_of_source(&self, id: &str) -> (r: Vec<String>)
        ensures
            forall|j: int| 0 <= j < r@.len() ==> self.flows().contains_key((#[trigger] r@[j])@)
                && self.flows()[r@[j]@].core.source_id@ == id@,
            forall|k: Seq<char>| #[trigger] self.flows().contains_key(k) && self.flows()[k].core.source_id@ == id@
                ==> exists|j: int| 0 <= j < r@.len() && r@[j]@ == k,
    {
        let n = self.flows.len();
        let ghost ks = self.flows.keys();
        let mut out: Vec<String> = Vec::new();
        let mut i: usize = 0;
        while i < n
            invariant
                i <= n,
                n == ks.len(),
                ks == self.flows.keys(),
                ordered_keys_of(ks, self.flows@),
                forall|j: int| 0 <= j < out@.len() ==> self.flows().contains_key((#[trigger] out@[j])@)
                    && self.flows()[out@[j]@].core.source_id@ == id@,
                forall|a: int| 0 <= a < i && self.flows()[ks[a]].core.source_id@ == id@
                    ==> exists|j: int| 0 <= j < out@.len() && (#[trigger] out@[j])@ == ks[a],
            decreases n - i,
        {
            let (k, f) = self.flows.entry_at(i);
            if str_eq(f.core.source_id.as_str(), id) {
                let ghost before = out@;
                out.push(k.clone());
                proof {
                    assert forall|a: int| 0 <= a < i + 1 && self.flows()[ks[a]].core.source_id@ == id@
                        implies exists|j: int| 0 <= j < out@.len() && (#[trigger] out@[j])@ == ks[a] by {
                        if a < i {
                            let j = choose|j: int| 0 <= j < before.len() && before[j]@ == ks[a];
                            assert(out@[j] == before[j]);
                        } else {
                            assert(out@[before.len() as int]@ == ks[a]);
                        }
                    }
                }
            }
            i = i + 1;
        }
        proof {
            assert forall|k: Seq<char>| #[trigger] self.flows().contains_key(k) && self.flows()[k].core.source_id@ == id@
                implies exists|j: int| 0 <= j < out@.len() && out@[j]@ == k by {
                let a = choose|a: int| 0 <= a < ks.len() && ks[a] == k;
            }
        }
        out
    }

    /// Deletes a source and, first, each of its flows in id order as
    /// `delete_flow` does, each flow with segments getting a deletion request
    /// of its own. A read-only flow stops it with an error, the flows before
    /// it already gone. With its flows gone, a source that is not there is
    /// reported as not found; otherwise it is removed and a deleted event
    /// recorded.
    pub fn delete_source(&mut self, id: &str, now: &str) -> (r: Result<DeleteResult, StoreError>)
        requires
            old(self).wf(),
        ensures
            final(self).wf(),
            r is Err ==> r matches Err(StoreError::ReadOnly),
            r is Ok <==> !(exists|k: Seq<char>| #[trigger] old(self).flows().contains_key(k)
                && old(self).flows()[k].core.source_id@ == id@ && old(self).flows()[k].core.read_only),
            forall|k: Seq<char>| #[trigger] final(self).flows().contains_key(k) ==> old(self).flows().contains_key(k)
                && same_core_but_collected(old(self).flows()[k].core, final(self).flows()[k].core),
            forall|k: Seq<char>| #[trigger] old(self).flows().contains_key(k) && old(self).flows()[k].core.source_id@ != id@
                ==> final(self).flows().contains_key(k),
            r is Ok ==> forall|k: Seq<char>| #[trigger] final(self).flows().contains_key(k)
                ==> final(self).flows()[k].core.source_id@ != id@,
            r is Ok ==> (r matches Ok(DeleteResult::NotFound) <==> !old(self).sources().contains_key(id@)),
            r matches Ok(res) ==> res is NotFound || res is Deleted,
            r matches Ok(DeleteResult::NotFound) ==> final(self).sources().dom() == old(self).sources().dom(),
            r matches Ok(DeleteResult::Deleted) ==> {
                &&& final(self).sources().dom() == old(self).sources().dom().remove(id@)
                &&& final(self).events().len() > old(self).events().len()
                &&& final(self).events().last() is SourceDeleted
                &&& event_source_id(final(self).events().last()) == Some(id@)
            },
            r is Err ==> final(self).sources().dom() == old(self).sources().dom(),
            final(self).events().len() >= old(self).events().len(),
            final(self).events().take(old(self).events().len() as int) == old(self).events(),
            final(self).segments() == old(self).segments(),
            final(self).webhooks() == old(self).webhooks(),
            final(self).instances() == old(self).instances(),
    {
        let ids = self.flow_ids_of_source(id);
        let n = ids.len();
        let mut j: usize = 0;
        while j < n
            invariant
                j <= n,
                n == ids@.len(),
                self.wf(),
                forall|a: int| 0 <= a < n ==> old(self).flows().contains_key((#[trigger] ids@[a])@)
                    && old(self).flows()[ids@[a]@].core.source_id@ == id@,
                forall|k: Seq<char>| #[trigger] old(self).flows().contains_key(k) && old(self).flows()[k].core.source_id@ == id@
                    ==> exists|a: int| 0 <= a < n && ids@[a]@ == k,
                forall|k: Seq<char>| #[trigger] self.flows().contains_key(k) ==> old(self).flows().contains_key(k)
                    && same_core_but_collected(old(self).flows()[k].core, self.flows()[k].core),
                forall|k: Seq<char>| #[trigger] old(self).flows().contains_key(k) && !self.flows().contains_key(k)
                    ==> exists|a: int| 0 <= a < j && (#[trigger] ids@[a])@ == k,
                forall|a: int| 0 <= a < j ==> !self.flows().contains_key((#[trigger] ids@[a])@)
                    && !old(self).flows()[ids@[a]@].core.read_only,
                self.sources().dom() == old(self).sources().dom(),
                self.events().len() >= old(self).events().len(),
                self.events().take(old(self).events().len() as int) == old(self).events(),
                self.segments() == old(self).segments(),
                self.webhooks() == old(self).webhooks(),
                self.instances() == old(self).instances(),
            decreases n - j,
        {
            let stamp = Stamp { now: now.to_owned(), id: new_uuid() };
            let ghost prev = *self;
            let res = self.delete_flow(ids[j].as_str(), &stamp);
            let ghost fid = ids@[j as int]@;
            proof {
                assert(prev.events().take(old(self).events().len() as int) == old(self).events());
                assert(self.events().take(old(self).events().len() as int) =~= old(self).events()) by {
                    assert(self.events().take(prev.events().len() as int) == prev.events());
                    assert forall|q: int| 0 <= q < old(self).events().len() implies self.events()[q] == old(self).events()[q] by {
                        assert(self.events()[q] == self.events().take(prev.events().len() as int)[q]);
                        assert(prev.events()[q] == prev.events().take(old(self).events().len() as int)[q]);
                    }
                }
            }
            match res {
                Err(e) => {
                    proof {
                        assert(old(self).flows()[fid].core.read_only);
                    }
                    return Err(e);
                },
                Ok(_) => {},
            }
            proof {
                assert(!self.flows().contains_key(fid));
                assert(!old(self).flows()[fid].core.read_only) by {
                    if prev.flows().contains_key(fid) {
                        assert(!prev.flows()[fid].core.read_only);
                    } else {
                        let a = choose|a: int| 0 <= a < j && (#[trigger] ids@[a])@ == fid;
                    }
                }
                assert forall|k: Seq<char>| #[trigger] old(self).flows().contains_key(k) && !self.flows().contains_key(k)
                    implies exists|a: int| 0 <= a < j + 1 && (#[trigger] ids@[a])@ == k by {
                    if k != fid {
                        assert(!prev.flows().contains_key(k));
                    } else {
                        assert(ids@[j as int]@ == k);
                    }
                }
                assert forall|k: Seq<char>| #[trigger] self.flows().contains_key(k) implies old(self).flows().contains_key(k)
                    && same_core_but_collected(old(self).flows()[k].core, self.flows()[k].core) by {
                    assert(prev.flows().contains_key(k));
                }
                assert forall|a: int| 0 <= a < j + 1 implies !self.flows().contains_key((#[trigger] ids@[a])@)
                    && !old(self).flows()[ids@[a]@].core.read_only by {
                    if a < j {
                        assert(!prev.flows().contains_key(ids@[a]@));
                    }
                }
            }
            j = j + 1;
        }
        proof {
            assert forall|k: Seq<char>| #[trigger] self.flows().contains_key(k) implies self.flows()[k].core.source_id@ != id@ by {
                if self.flows()[k].core.source_id@ == id@ {
                    let a = choose|a: int| 0 <= a < n && ids@[a]@ == k;
                    assert(!self.flows().contains_key(ids@[a]@));
                }
            }
            assert(!(exists|k: Seq<char>| #[trigger] old(self).flows().contains_key(k)
                && old(self).flows()[k].core.source_id@ == id@ && old(self).flows()[k].core.read_only)) by {
                if exists|k: Seq<char>| #[trigger] old(self).flows().contains_key(k)
                    && old(self).flows()[k].core.source_id@ == id@ && old(self).flows()[k].core.read_only {
                    let k = choose|k: Seq<char>| #[trigger] old(self).flows().contains_key(k)
                        && old(self).flows()[k].core.source_id@ == id@ && old(self).flows()[k].core.read_only;
                    let a = choose|a: int| 0 <= a < n && ids@[a]@ == k;
                    assert(!old(self).flows()[ids@[a]@].core.read_only);
                }
            }
            assert forall|k: Seq<char>| #[trigger] old(self).flows().contains_key(k) && old(self).flows()[k].core.source_id@ != id@
                implies self.flows().contains_key(k) by {
                if !self.flows().contains_key(k) {
                    let a = choose|a: int| 0 <= a < n && (#[trigger] ids@[a])@ == k;
                }
            }
        }
        let source_cb = match self.sources.get(id) {
            Some(src) => strings_or_empty(&src.collected_by),
            None => Vec::new(),
        };
        match self.sources.remove(id) {
            None => {
                return Ok(DeleteResult::NotFound);
            },
            Some(_) => {},
        }
        proof {
            assert forall|k: Seq<char>| #[trigger] self.sources@.contains_key(k) implies self.sources@[k].id@ == k by {
                assert(self.sources@.contains_key(k));
            }
        }
        let ghost before = self.events@;
        self.events.push(StoreEvent::SourceDeleted { source_id: id.to_owned(), source_collected_by: source_cb });
        proof {
            assert(self.events@.take(old(self).events().len() as int) =~= before.take(old(self).events().len() as int));
        }
        Ok(DeleteResult::Deleted)
    }

    /// The flow ids that have segments, in increasing order.
    pub closed spec fn segment_keys(self) -> Seq<Seq<char>> {
        self.segments.keys()
    }

    /// The ranges of an object's segments among the segments of the flows
    /// `ks`, flow by flow and each flow's in order.
    pub open spec fn object_ranges_in(self, ks: Seq<Seq<char>>, o: Seq<char>) -> Seq<TimeRange>
        decreases ks.len(),
    {
        if ks.len() == 0 {
            Seq::empty()
        } else {
            self.object_ranges_in(ks.drop_last(), o) + object_ranges(self.segs_of(ks.last()), o)
        }
    }

    /// The flows among `ks` that have a segment of the object and, when
    /// the flow is known, whose tags pass the filters; in the order of `ks`.
    pub open spec fn object_refs(self, ks: Seq<Seq<char>>, o: Seq<char>, tf: TagFilters) -> Seq<Seq<char>>
        decreases ks.len(),
    {
        if ks.len() == 0 {
            Seq::empty()
        } else {
            let rest = self.object_refs(ks.drop_last(), o, tf);
            let k = ks.last();
            if object_ranges(self.segs_of(k), o).len() > 0 && (!self.flows().contains_key(k) || tag_filters_pass(
                tf,
                tags_or_empty(self.flows()[k].core.tags),
            )) {
                rest.push(k)
            } else {
                rest
            }
        }
    }

    /// The registered instances of an object a query shows: none when only
    /// presigned URLs are wanted, else those with an accepted label.
    pub open spec fn shown_instances(self, o: Seq<char>, q: ObjectQuery) -> Seq<UncontrolledInstance> {
        if q.presigned == Some(true) || !self.instances().contains_key(o) {
            Seq::empty()
        } else {
            kept_instances(self.instances()[o]@, q.accept_get_urls)
        }
    }

    fn build_object_get_urls(&self, object_id: &str, query: &ObjectQuery) -> (r: Vec<Json>)
        ensures
            r@.len() == self.shown_instances(object_id@, *query).len(),
            forall|i: int| 0 <= i < r@.len() ==> instance_url_shown(
                self.shown_instances(object_id@, *query)[i],
                #[trigger] r@[i],
                query.verbose_storage,
            ),
    {
        let mut out: Vec<Json> = Vec::new();
        if query.presigned == Some(true) {
            return out;
        }
        let list = match self.object_instances.get(object_id) {
            Some(l) => l,
            None => {
                return out;
            },
        };
        let mut i: usize = 0;
        while i < list.len()
            invariant
                i <= list@.len(),
                out@.len() == kept_instances(list@.take(i as int), query.accept_get_urls).len(),
                forall|a: int| 0 <= a < out@.len() ==> instance_url_shown(
                    kept_instances(list@.take(i as int), query.accept_get_urls)[a],
                    #[trigger] out@[a],
                    query.verbose_storage,
                ),
            decreases list@.len() - i,
        {
            let inst = &list[i];
            let ok = match &query.accept_get_urls {
                Some(labels) => crate::webhook::listed(labels.as_slice(), inst.label.as_str()),
                None => true,
            };
            proof {
                assert(list@.take(i + 1).drop_last() =~= list@.take(i as int));
            }
            if ok {
                out.push(instance_url(inst, query.verbose_storage));
            }
            i = i + 1;
        }
        proof {
            assert(list@.take(list@.len() as int) =~= list@);
        }
        out
    }

    /// Reports on a media object: the flows whose segments use it (those
    /// whose tags fail the query's flow tag filters left out), in id order,
    /// the first of them, the bounding union of the ranges of all its
    /// segments, and its download URLs: the registered instances the query
    /// shows, then the store's own `controlled_get_url` when the query's
    /// filters let it through. An object no listed flow uses is not found.
    pub fn get_object(&self, object_id: &str, query: &ObjectQuery, controlled_get_url: Option<&str>) -> (r: Result<ObjectInfo, StoreError>)
        ensures
            ordered_keys_of(self.segment_keys(), self.segments()),
            ({
                let refs = self.object_refs(self.segment_keys(), object_id@, query.flow_tag_filters);
                &&& (r is Err <==> refs.len() == 0)
                &&& (r matches Err(e) ==> (e matches StoreError::NotFound(m) && m@ == not_found_message("Object"@, object_id@)))
                &&& (r matches Ok(info) ==> {
                    let shown = self.shown_instances(object_id@, *query);
                    let with_controlled = self.controlled_url_wanted(query.presigned, query.accept_get_urls, query.accept_storage_ids)
                        && controlled_get_url is Some;
                    &&& info.id@ == object_id@
                    &&& string_views(info.referenced_by_flows@) == refs
                    &&& opt_str_view(info.first_referenced_by_flow) == Some(refs[0])
                    &&& info.timerange == union_of(self.object_ranges_in(self.segment_keys(), object_id@))
                    &&& info.get_urls@.len() == shown.len() + (if with_controlled { 1int } else { 0int })
                    &&& forall|i: int| 0 <= i < shown.len() ==> instance_url_shown(shown[i], #[trigger] info.get_urls@[i], query.verbose_storage)
                    &&& with_controlled ==> {
                        let u = info.get_urls@[shown.len() as int];
                        let b = self.backends()[0];
                        &&& crate::flow::text_member(u, "url"@) == Some(controlled_get_url->0@)
                        &&& crate::flow::text_member(u, "label"@) == Some(Store::backend_label(b))
                        &&& json_bool(json_get(u, "presigned"@)) == Some(true)
                        &&& (query.verbose_storage ==> json_bool(json_get(u, "controlled"@)) == Some(true)
                            && crate::flow::text_member(u, "storage_id"@) == Some(b.id@))
                        &&& controlled_entry(u, controlled_get_url->0@, Store::backend_label(b), b.id@, query.verbose_storage)
                    }
                })
            }),
    {
        let n = self.segments.len();
        let ghost ks = self.segments.keys();
        let mut refs: Vec<String> = Vec::new();
        let mut timerange = TimeRange::never();
        let ghost mut acc: Seq<TimeRange> = Seq::empty();
        let mut i: usize = 0;
        while i < n
            invariant
                i <= n,
                n == ks.len(),
                ks == self.segments.keys(),
                ordered_keys_of(ks, self.segments@),
                acc == self.object_ranges_in(ks.take(i as int), object_id@),
                timerange == union_of(acc),
                string_views(refs@) == self.object_refs(ks.take(i as int), object_id@, query.flow_tag_filters),
            decreases n - i,
        {
            let (k, segs) = self.segments.entry_at(i);
            let ghost before = acc;
            let mut has = false;
            let mut x: usize = 0;
            while x < segs.len()
                invariant
                    x <= segs@.len(),
                    acc == before + object_ranges(segs@.take(x as int), object_id@),
                    timerange == union_of(acc),
                    has == (object_ranges(segs@.take(x as int), object_id@).len() > 0),
                decreases segs@.len() - x,
            {
                let seg = &segs[x];
                proof {
                    assert(segs@.take(x + 1).drop_last() =~= segs@.take(x as int));
                }
                if str_eq(seg.object_id.as_str(), object_id) {
                    has = true;
                    timerange = timerange.union(&seg.timerange);
                    proof {
                        let a2 = acc.push(seg.timerange);
                        assert(a2.drop_last() =~= acc);
                        assert(a2 =~= before + object_ranges(segs@.take(x + 1), object_id@));
                        acc = a2;
                    }
                }
                x = x + 1;
            }
            proof {
                assert(segs@.take(segs@.len() as int) =~= segs@);
                assert(ks.take(i + 1).drop_last() =~= ks.take(i as int));
                assert(self.segs_of(ks[i as int]) == segs@);
            }
            if has {
                let listed = match self.flows.get(k.as_str()) {
                    Some(f) => match &f.core.tags {
                        Some(t) => query.flow_tag_filters.matches(t),
                        None => {
                            let empty = Tags::new();
                            let r = query.flow_tag_filters.matches(&empty);
                            assert(tags_or_empty(f.core.tags) == empty@);
                            r
                        },
                    },
                    None => true,
                };
                if listed {
                    let ghost before_refs = refs@;
                    refs.push(k.clone());
                    proof {
                        assert(string_views(refs@) =~= string_views(before_refs).push(k@));
                    }
                }
            }
            i = i + 1;
        }
        let ghost keys_done = ks.take(n as int);
        proof {
            assert(keys_done =~= ks);
        }
        if refs.len() == 0 {
            return Err(not_found("Object", object_id));
        }
        let first = Some(refs[0].clone());
        let mut get_urls = self.build_object_get_urls(object_id, query);
        let ghost shown_urls = get_urls@;
        if self.controlled_url_included(query.presigned, &query.accept_get_urls, &query.accept_storage_ids) {
            match controlled_get_url {
                Some(u) => {
                    let b = &self.storage_backends[0];
                    let label = match &b.label {
                        Some(l) => l.as_str(),
                        None => "s3",
                    };
                    get_urls.push(build_controlled_url(u, label, b.id.as_str(), query.verbose_storage));
                    proof {
                        assert forall|j: int| 0 <= j < shown_urls.len() implies get_urls@[j] == shown_urls[j] by {}
                    }
                },
                None => {},
            }
        }
        Ok(ObjectInfo {
            id: object_id.to_owned(),
            referenced_by_flows: refs,
            first_referenced_by_flow: first,
            timerange,
            get_urls,
        })
    }

    /// The instances registered for an object, in order; none if it has none.
    pub open spec fn instance_list(self, o: Seq<char>) -> Seq<UncontrolledInstance> {
        if self.instances().contains_key(o) {
            self.instances()[o]@
        } else {
            Seq::empty()
        }
    }

    /// Whether a storage backend has the id.
    pub open spec fn backend_has_id(self, id: Seq<char>) -> bool {
        exists|i: int| 0 <= i < self.backends().len() && (#[trigger] self.backends()[i]).id@ == id
    }

    /// Whether a storage backend has the label.
    pub open spec fn backend_has_label(self, label: Seq<char>) -> bool {
        exists|i: int| 0 <= i < self.backends().len() && opt_str_view((#[trigger] self.backends()[i]).label) == Some(label)
    }

    fn has_backend_id(&self, id: &str) -> (r: bool)
        ensures
            r == self.backend_has_id(id@),
    {
        let mut i: usize = 0;
        while i < self.storage_backends.len()
            invariant
                i <= self.backends().len(),
                forall|j: int| 0 <= j < i ==> (#[trigger] self.backends()[j]).id@ != id@,
            decreases self.backends().len() - i,
        {
            if str_eq(self.storage_backends[i].id.as_str(), id) {
                return true;
            }
            i = i + 1;
        }
        false
    }

    fn has_backend_label(&self, label: &str) -> (r: bool)
        ensures
            r == self.backend_has_label(label@),
    {
        let mut i: usize = 0;
        while i < self.storage_backends.len()
            invariant
                i <= self.backends().len(),
                forall|j: int| 0 <= j < i ==> opt_str_view((#[trigger] self.backends()[j]).label) != Some(label@),
            decreases self.backends().len() - i,
        {
            match &self.storage_backends[i].label {
                Some(l) => {
                    if str_eq(l.as_str(), label) {
                        return true;
                    }
                },
                None => {},
            }
            i = i + 1;
        }
        false
    }

    /// Registers an instance of a media object that some flow's segments
    /// use. Asking for a copy in a known storage backend succeeds and changes
    /// nothing (the store keeps one); an unknown backend is refused. A
    /// client's instance is added under its label, unless a storage backend
    /// or another instance of the object has that label.
    #[verifier::loop_isolation(false)]
    pub fn add_object_instance(&mut self, object_id: &str, request: InstanceRequest) -> (r: Result<(), StoreError>)
        requires
            old(self).wf(),
        ensures
            final(self).wf(),
            !old(self).object_in_segments(object_id@) ==> (r matches Err(StoreError::NotFound(m))
                && m@ == not_found_message("Object"@, object_id@)),
            r is Err ==> final(self).instances() == old(self).instances(),
            old(self).object_in_segments(object_id@) ==> match request {
                InstanceRequest::Controlled { storage_id } => {
                    &&& final(self).instances() == old(self).instances()
                    &&& (r is Ok <==> old(self).backend_has_id(storage_id@))
                    &&& (r matches Err(e) ==> (e matches StoreError::BadRequest(m) && m@ == "Unknown storage backend: "@ + storage_id@))
                },
                InstanceRequest::Uncontrolled { url, label } => {
                    let existing = old(self).instance_list(object_id@);
                    let taken = exists|j: int| 0 <= j < existing.len() && (#[trigger] existing[j]).label@ == label@;
                    &&& old(self).backend_has_label(label@) ==> (r matches Err(StoreError::BadRequest(m))
                        && m@ == "Label '"@ + label@ + "' conflicts with a storage backend label"@)
                    &&& !old(self).backend_has_label(label@) && taken ==> (r matches Err(StoreError::BadRequest(m))
                        && m@ == "Instance with label '"@ + label@ + "' already exists"@)
                    &&& !old(self).backend_has_label(label@) && !taken ==> {
                        &&& r is Ok
                        &&& final(self).instances().contains_key(object_id@)
                        &&& final(self).instances() == old(self).instances().insert(object_id@, final(self).instances()[object_id@])
                        &&& final(self).instance_list(object_id@) == existing.push(UncontrolledInstance { url, label })
                    }
                },
            },
            final(self).sources() == old(self).sources(),
            final(self).flows() == old(self).flows(),
            final(self).segments() == old(self).segments(),
            final(self).webhooks() == old(self).webhooks(),
            final(self).deletions() == old(self).deletions(),
            final(self).events() == old(self).events(),
            final(self).backends() == old(self).backends(),
    {
        if !self.object_referenced(object_id) {
            return Err(not_found("Object", object_id));
        }
        match request {
            InstanceRequest::Controlled { storage_id } => {
                if !self.has_backend_id(storage_id.as_str()) {
                    return Err(StoreError::BadRequest(String::from_str("Unknown storage backend: ").concat(storage_id.as_str())));
                }
                Ok(())
            },
            InstanceRequest::Uncontrolled { url, label } => {
                if self.has_backend_label(label.as_str()) {
                    return Err(StoreError::BadRequest(
                        String::from_str("Label '").concat(label.as_str()).concat("' conflicts with a storage backend label"),
                    ));
                }
                let mut list = match self.object_instances.remove(object_id) {
                    Some(l) => l,
                    None => Vec::new(),
                };
                let ghost existing = list@;
                proof {
                    assert(existing == old(self).instance_list(object_id@));
                }
                let mut j: usize = 0;
                let mut taken = false;
                while j < list.len() && !taken
                    invariant
                        j <= list@.len(),
                        list@ == existing,
                        taken ==> exists|a: int| 0 <= a < existing.len() && (#[trigger] existing[a]).label@ == label@,
                        !taken ==> forall|a: int| 0 <= a < j ==> (#[trigger] existing[a]).label@ != label@,
                    decreases list@.len() - j + (if taken { 0int } else { 1int }),
                {
                    if str_eq(list[j].label.as_str(), label.as_str()) {
                        taken = true;
                    } else {
                        j = j + 1;
                    }
                }
                if taken {
                    self.object_instances.insert(object_id.to_owned(), list);
                    proof {
                        assert(old(self).object_instances@.contains_key(object_id@));
                        assert(self.object_instances@ =~= old(self).object_instances@);
                    }
                    return Err(StoreError::BadRequest(
                        String::from_str("Instance with label '").concat(label.as_str()).concat("' already exists"),
                    ));
                }
                list.push(UncontrolledInstance { url, label });
                self.object_instances.insert(object_id.to_owned(), list);
                proof {
                    assert(self.object_instances@ =~= old(self).object_instances@.insert(object_id@, self.object_instances@[object_id@]));
                }
                Ok(())
            },
        }
    }

    /// Removes an instance of a media object that some flow's segments use.
    /// The store's own copy cannot be removed and another storage id is not
    /// found. A client's instance is removed by label, and the object's
    /// list with it when it empties; a label it does not have is not found.
    #[verifier::loop_isolation(false)]
    pub fn delete_object_instance(&mut self, object_id: &str, selector: InstanceSelector) -> (r: Result<(), StoreError>)
        requires
            old(self).wf(),
        ensures
            final(self).wf(),
            !old(self).object_in_segments(object_id@) ==> (r matches Err(StoreError::NotFound(m))
                && m@ == not_found_message("Object"@, object_id@)),
            r is Err ==> final(self).instances() == old(self).instances(),
            old(self).object_in_segments(object_id@) ==> match selector {
                InstanceSelector::ByStorageId(sid) => {
                    &&& old(self).backend_has_id(sid@) ==> (r matches Err(StoreError::BadRequest(m))
                        && m@ == "Cannot delete the only controlled instance"@)
                    &&& !old(self).backend_has_id(sid@) ==> (r matches Err(StoreError::NotFound(m))
                        && m@ == "No instance with storage_id '"@ + sid@ + "'"@)
                },
                InstanceSelector::ByLabel(lbl) => {
                    let existing = old(self).instance_list(object_id@);
                    let kept = without_label(existing, lbl@);
                    &&& kept.len() == existing.len() ==> (r matches Err(StoreError::NotFound(m))
                        && m@ == "No instance with label '"@ + lbl@ + "'"@)
                    &&& kept.len() < existing.len() ==> r is Ok
                    &&& kept.len() < existing.len() && kept.len() == 0 ==> final(self).instances() == old(self).instances().remove(object_id@)
                    &&& kept.len() > 0 && kept.len() < existing.len() ==> {
                        &&& final(self).instances().contains_key(object_id@)
                        &&& final(self).instances() == old(self).instances().insert(object_id@, final(self).instances()[object_id@])
                        &&& final(self).instance_list(object_id@) == kept
                    }
                },
            },
            final(self).sources() == old(self).sources(),
            final(self).flows() == old(self).flows(),
            final(self).segments() == old(self).segments(),
            final(self).webhooks() == old(self).webhooks(),
            final(self).deletions() == old(self).deletions(),
            final(self).events() == old(self).events(),
            final(self).backends() == old(self).backends(),
    {
        if !self.object_referenced(object_id) {
            return Err(not_found("Object", object_id));
        }
        match selector {
            InstanceSelector::ByStorageId(sid) => {
                if self.has_backend_id(sid) {
                    return Err(StoreError::BadRequest(String::from_str("Cannot delete the only controlled instance")));
                }
                Err(StoreError::NotFound(String::from_str("No instance with storage_id '").concat(sid).concat("'")))
            },
            InstanceSelector::ByLabel(lbl) => {
                let msg = String::from_str("No instance with label '").concat(lbl).concat("'");
                let list = match self.object_instances.get(object_id) {
                    Some(l) => l,
                    None => {
                        return Err(StoreError::NotFound(msg));
                    },
                };
                let ghost existing = list@;
                let mut kept: Vec<UncontrolledInstance> = Vec::new();
                let mut j: usize = 0;
                while j < list.len()
                    invariant
                        j <= list@.len(),
                        list@ == existing,
                        kept@ == without_label(existing.take(j as int), lbl@),
                    decreases list@.len() - j,
                {
                    proof {
                        assert(existing.take(j + 1).drop_last() =~= existing.take(j as int));
                    }
                    let inst = &list[j];
                    if !str_eq(inst.label.as_str(), lbl) {
                        kept.push(UncontrolledInstance { url: inst.url.clone(), label: inst.label.clone() });
                    }
                    j = j + 1;
                }
                proof {
                    assert(existing.take(existing.len() as int) =~= existing);
                    lemma_without_label_len(existing, lbl@);
                }
                if kept.len() == list.len() {
                    return Err(StoreError::NotFound(msg));
                }
                if kept.len() == 0 {
                    self.object_instances.remove(object_id);
                } else {
                    self.object_instances.insert(object_id.to_owned(), kept);
                    proof {
                        assert(self.object_instances@ =~= old(self).object_instances@.insert(object_id@, self.object_instances@[object_id@]));
                    }
                }
                Ok(())
            },
        }
    }

    /// Stores a source under its id, replacing any there, with its missing
    /// server-managed fields filled in as of `now`. No event is recorded.
    pub fn create_source(&mut self, source: Source, now: &str)
        requires
            old(self).wf(),
        ensures
            final(self).wf(),
            final(self).sources().contains_key(source.id@),
            final(self).sources() == old(self).sources().insert(source.id@, final(self).sources()[source.id@]),
            with_defaults(source, final(self).sources()[source.id@], now@),
            final(self).flows() == old(self).flows(),
            final(self).segments() == old(self).segments(),
            final(self).instances() == old(self).instances(),
            final(self).webhooks() == old(self).webhooks(),
            final(self).deletions() == old(self).deletions(),
            final(self).events() == old(self).events(),
            final(self).service() == old(self).service(),
            final(self).backends() == old(self).backends(),
    {
        let filled = fill_source_defaults(source, now);
        self.load_source(filled);
    }

    /// Restores a stored source under its id.
    pub fn load_source(&mut self, source: Source)
        requires
            old(self).wf(),
        ensures
            final(self).wf(),
            final(self).sources() == old(self).sources().insert(source.id@, source),
            final(self).flows() == old(self).flows(),
            final(self).segments() == old(self).segments(),
            final(self).instances() == old(self).instances(),
            final(self).webhooks() == old(self).webhooks(),
            final(self).deletions() == old(self).deletions(),
            final(self).events() == old(self).events(),
            final(self).service() == old(self).service(),
            final(self).backends() == old(self).backends(),
    {
        let ghost sv = source;
        let key = source.id.clone();
        self.sources.insert(key, source);
        proof {
            assert forall|k: Seq<char>| #[trigger] self.sources@.contains_key(k) implies self.sources@[k].id@ == k by {
                if k != sv.id@ {
                    assert(old(self).sources@.contains_key(k));
                }
            }
        }
    }

    /// Restores a stored flow document under its id, if it has a string id
    /// and the fields every flow has; says whether it did.
    pub fn load_flow(&mut self, doc: Json) -> (r: bool)
        requires
            old(self).wf(),
        ensures
            final(self).wf(),
            r == (text_member(doc, "id"@) is Some && has_core(doc)),
            r ==> final(self).flows().contains_key(text_member(doc, "id"@)->0)
                && final(self).flows() == old(self).flows().insert(text_member(doc, "id"@)->0,
                final(self).flows()[text_member(doc, "id"@)->0])
                && final(self).flows()[text_member(doc, "id"@)->0].document == doc
                && core_read_from(final(self).flows()[text_member(doc, "id"@)->0].core, doc),
            !r ==> final(self).flows() == old(self).flows(),
            final(self).sources() == old(self).sources(),
            final(self).segments() == old(self).segments(),
            final(self).instances() == old(self).instances(),
            final(self).webhooks() == old(self).webhooks(),
            final(self).deletions() == old(self).deletions(),
            final(self).events() == old(self).events(),
    {
        let id = match doc.get_str("id") {
            Some(s) => s.clone(),
            None => {
                return false;
            },
        };
        match flow_core_from_document(&doc) {
            Some(core) => {
                self.flows.insert(id, StoredFlow { core, document: doc });
                true
            },
            None => false,
        }
    }

    /// Restores a stored segment document onto the end of its flow's
    /// segments, if it names its flow, a range that parses and its object;
    /// says whether it did.
    pub fn load_segment(&mut self, doc: Json) -> (r: bool)
        requires
            old(self).wf(),
        ensures
            final(self).wf(),
            r == (text_member(doc, "flow_id"@) is Some && text_member(doc, "object_id"@) is Some
                && (text_member(doc, "timerange"@) matches Some(t) && spec_parse_timerange(t) is Some)),
            r ==> {
                let f = text_member(doc, "flow_id"@)->0;
                &&& final(self).segments().contains_key(f)
                &&& final(self).segments() == old(self).segments().insert(f, final(self).segments()[f])
                &&& final(self).segs_of(f).len() == old(self).segs_of(f).len() + 1
                &&& final(self).segs_of(f).drop_last() == old(self).segs_of(f)
                &&& final(self).segs_of(f).last().document == doc
                &&& final(self).segs_of(f).last().object_id@ == text_member(doc, "object_id"@)->0
                &&& Some(final(self).segs_of(f).last().timerange) == spec_parse_timerange(text_member(doc, "timerange"@)->0)
            },
            !r ==> final(self).segments() == old(self).segments(),
            final(self).sources() == old(self).sources(),
            final(self).flows() == old(self).flows(),
            final(self).instances() == old(self).instances(),
            final(self).webhooks() == old(self).webhooks(),
            final(self).deletions() == old(self).deletions(),
            final(self).events() == old(self).events(),
    {
        let flow_id = match doc.get_str("flow_id") {
            Some(s) => s.clone(),
            None => {
                return false;
            },
        };
        let timerange = match doc.get_str("timerange") {
            Some(t) => match TimeRange::parse(t.as_str()) {
                Ok(tr) => tr,
                Err(_) => {
                    return false;
                },
            },
            None => {
                return false;
            },
        };
        let object_id = match doc.get_str("object_id") {
            Some(s) => s.clone(),
            None => {
                return false;
            },
        };
        let mut list = match self.segments.remove(flow_id.as_str()) {
            Some(l) => l,
            None => Vec::new(),
        };
        let ghost before = list@;
        list.push(StoredSegment { timerange, object_id, document: doc });
        self.segments.insert(flow_id, list);
        proof {
            assert(self.segments@ =~= old(self).segments@.insert(flow_id@, self.segments@[flow_id@]));
            assert(self.segs_of(flow_id@).drop_last() =~= before);
        }
        true
    }

    /// Restores the registered instances of an object.
    pub fn load_instances(&mut self, object_id: String, instances: Vec<UncontrolledInstance>)
        requires
            old(self).wf(),
        ensures
            final(self).wf(),
            final(self).instances() == old(self).instances().insert(object_id@, instances),
            final(self).sources() == old(self).sources(),
            final(self).flows() == old(self).flows(),
            final(self).segments() == old(self).segments(),
            final(self).webhooks() == old(self).webhooks(),
            final(self).deletions() == old(self).deletions(),
            final(self).events() == old(self).events(),
    {
        self.object_instances.insert(object_id, instances);
    }

    /// Restores a stored webhook under its id.
    pub fn load_webhook(&mut self, webhook: StoredWebhook)
        requires
            old(self).wf(),
        ensures
            final(self).wf(),
            final(self).webhooks() == old(self).webhooks().insert(webhook.id@, webhook),
            final(self).sources() == old(self).sources(),
            final(self).flows() == old(self).flows(),
            final(self).segments() == old(self).segments(),
            final(self).instances() == old(self).instances(),
            final(self).deletions() == old(self).deletions(),
            final(self).events() == old(self).events(),
    {
        let ghost wv = webhook;
        let key = webhook.id.clone();
        self.webhooks.insert(key, webhook);
        proof {
            assert forall|k: Seq<char>| #[trigger] self.webhooks@.contains_key(k) implies self.webhooks@[k].id@ == k by {
                if k != wv.id@ {
                    assert(old(self).webhooks@.contains_key(k));
                }
            }
        }
    }

    /// Restores a stored deletion request under its id.
    pub fn load_deletion_request(&mut self, request: DeletionRequest)
        requires
            old(self).wf(),
        ensures
            final(self).wf(),
            final(self).deletions() == old(self).deletions().insert(request.id@, request),
            final(self).sources() == old(self).sources(),
            final(self).flows() == old(self).flows(),
            final(self).segments() == old(self).segments(),
            final(self).instances() == old(self).instances(),
            final(self).webhooks() == old(self).webhooks(),
            final(self).events() == old(self).events(),
    {
        let ghost dv = request;
        let key = request.id.clone();
        self.deletion_requests.insert(key, request);
        proof {
            assert forall|k: Seq<char>| #[trigger] self.deletion_requests@.contains_key(k) implies self.deletion_requests@[k].id@ == k by {
                if k != dv.id@ {
                    assert(old(self).deletion_requests@.contains_key(k));
                }
            }
        }
    }

    /// The stored segments of a flow, in order.
    pub fn flow_segments(&self, flow_id: &str) -> (r: Option<&Vec<StoredSegment>>)
        ensures
            match r {
                Some(v) => self.segments().contains_key(flow_id@) && *v == self.segments()[flow_id@],
                None => !self.segments().contains_key(flow_id@),
            },
    {
        self.segments.get(flow_id)
    }

    /// The registered instances of an object.
    pub fn object_instances(&self, object_id: &str) -> (r: Option<&Vec<UncontrolledInstance>>)
        ensures
            match r {
                Some(v) => self.instances().contains_key(object_id@) && *v == self.instances()[object_id@],
                None => !self.instances().contains_key(object_id@),
            },
    {
        self.object_instances.get(object_id)
    }

    /// The objects with registered instances, in id order.
    pub fn instance_object_ids(&self) -> (r: Vec<String>)
        ensures
            string_views(r@) == self.instance_keys(),
            ordered_keys_of(self.instance_keys(), self.instances()),
    {
        let n = self.object_instances.len();
        let ghost ks = self.object_instances.keys();
        let mut out: Vec<String> = Vec::new();
        let mut i: usize = 0;
        while i < n
            invariant
                i <= n,
                n == ks.len(),
                ks == self.object_instances.keys(),
                out@.len() == i,
                forall|j: int| 0 <= j < i ==> (#[trigger] out@[j])@ == ks[j],
            decreases n - i,
        {
            let (k, _) = self.object_instances.entry_at(i);
            out.push(k.clone());
            i = i + 1;
        }
        assert(string_views(out@) =~= ks);
        out
    }

    /// The objects with registered instances, in increasing order.
    pub closed spec fn instance_keys(self) -> Seq<Seq<char>> {
        self.object_instances.keys()
    }

    /// Applies a change to a source, stamps its update time and records an update event.
    fn store_updated_source(&mut self, source: Source, now: &str)
        requires
            old(self).wf(),
        ensures
            final(self).wf(),
            final(self).sources().contains_key(source.id@),
            final(self).sources() == old(self).sources().insert(source.id@, final(self).sources()[source.id@]),
            same_source_identity(final(self).sources()[source.id@], source),
            final(self).sources()[source.id@].tags == source.tags,
            final(self).sources()[source.id@].label == source.label,
            final(self).sources()[source.id@].description == source.description,
            opt_str_view(final(self).sources()[source.id@].updated) == Some(now@),
            final(self).events().len() == old(self).events().len() + 1,
            final(self).events().take(old(self).events().len() as int) == old(self).events(),
            final(self).events().last() is SourceUpdated,
            Store::carries_source(final(self).events().last(), final(self).sources()[source.id@]),
            event_source_id(final(self).events().last()) == Some(source.id@),
            event_source_collected_by(final(self).events().last()) == list_or_empty(source.collected_by),
            final(self).flows() == old(self).flows(),
            final(self).segments() == old(self).segments(),
            final(self).instances() == old(self).instances(),
            final(self).webhooks() == old(self).webhooks(),
            final(self).deletions() == old(self).deletions(),
            final(self).service() == old(self).service(),
            final(self).backends() == old(self).backends(),
    {
        let mut s = source;
        s.updated = Some(now.to_owned());
        let doc = source_json(&s);
        let cb = strings_or_empty(&s.collected_by);
        let key = s.id.clone();
        let ghost sv = s;
        self.sources.insert(key, s);
        let ev = StoreEvent::SourceUpdated { source: doc, source_collected_by: cb };
        self.events.push(ev);
        proof {
            assert(self.sources()[source.id@] == sv);
            assert forall|k: Seq<char>| #[trigger] self.sources@.contains_key(k) implies self.sources@[k].id@ == k by {
                if k != source.id@ {
                    assert(old(self).sources@.contains_key(k));
                }
            }
        }
    }

    /// Takes a source out for a change, or reports that there is none.
    fn take_source(&mut self, id: &str) -> (r: Result<Source, StoreError>)
        requires
            old(self).wf(),
        ensures
            final(self).wf(),
            r is Ok <==> old(self).sources().contains_key(id@),
            r matches Ok(s) ==> s == old(self).sources()[id@],
            r matches Ok(s) ==> s.id@ == id@,
            r is Ok ==> final(self).sources() == old(self).sources().remove(id@),
            r is Err ==> final(self).sources() == old(self).sources(),
            r matches Err(e) ==> (e matches StoreError::NotFound(m) && m@ == not_found_message("Source"@, id@)),
            final(self).flows() == old(self).flows(),
            final(self).segments() == old(self).segments(),
            final(self).instances() == old(self).instances(),
            final(self).webhooks() == old(self).webhooks(),
            final(self).deletions() == old(self).deletions(),
            final(self).events() == old(self).events(),
            final(self).service() == old(self).service(),
            final(self).backends() == old(self).backends(),
    {
        proof {
            if old(self).sources@.contains_key(id@) {
                assert(old(self).sources@[id@].id@ == id@);
            }
        }
        match self.sources.remove(id) {
            Some(s) => Ok(s),
            None => Err(not_found("Source", id)),
        }
    }

    /// The sources the filters list, in id order.
    pub fn list_sources(&self, filters: &SourceFilters, tag_filters: &TagFilters) -> (r: Vec<&Source>)
        requires
            self.wf(),
        ensures
            forall|i: int, j: int| 0 <= i < j < r@.len() ==> crate::order::seq_lt(r@[i].id@, r@[j].id@),
            forall|i: int| 0 <= i < r@.len() ==> self.sources().contains_key((#[trigger] r@[i]).id@)
                && self.sources()[r@[i].id@] == *r@[i] && source_listed(*r@[i], *filters, *tag_filters),
            forall|k: Seq<char>| #[trigger] self.sources().contains_key(k) && source_listed(
                self.sources()[k],
                *filters,
                *tag_filters,
            ) ==> exists|i: int| 0 <= i < r@.len() && r@[i].id@ == k,
    {
        let n = self.sources.len();
        let ghost ks = self.sources.keys();
        let mut out: Vec<&Source> = Vec::new();
        let mut i: usize = 0;
        while i < n
            invariant
                i <= n,
                n == ks.len(),
                ks == self.sources.keys(),
                ordered_keys_of(ks, self.sources@),
                self.wf(),
                forall|a: int| 0 <= a < out@.len() ==> exists|j: int| 0 <= j < i && ks[j] == (#[trigger] out@[a]).id@,
                forall|a: int, b: int| 0 <= a < b < out@.len() ==> crate::order::seq_lt(out@[a].id@, out@[b].id@),
                forall|a: int| 0 <= a < out@.len() ==> self.sources().contains_key((#[trigger] out@[a]).id@)
                    && self.sources()[out@[a].id@] == *out@[a] && source_listed(*out@[a], *filters, *tag_filters),
                forall|j: int| 0 <= j < i && source_listed(self.sources()[ks[j]], *filters, *tag_filters)
                    ==> exists|a: int| 0 <= a < out@.len() && (#[trigger] out@[a]).id@ == ks[j],
            decreases n - i,
        {
            let (k, s) = self.sources.entry_at(i);
            let ok = self.source_passes(s, filters, tag_filters);
            proof {
                assert(s.id@ == ks[i as int]);
            }
            if ok {
                let ghost before = out@;
                out.push(s);
                proof {
                    assert forall|a: int, b: int| 0 <= a < b < out@.len() implies crate::order::seq_lt(
                        out@[a].id@,
                        out@[b].id@,
                    ) by {
                        if b == out@.len() - 1 {
                            assert(out@[a] == before[a]);
                            let j = choose|j: int| 0 <= j < i && ks[j] == out@[a].id@;
                        } else {
                            assert(out@[a] == before[a] && out@[b] == before[b]);
                        }
                    }
                    assert forall|a: int| 0 <= a < out@.len() implies exists|j: int| 0 <= j < i + 1 && ks[j]
                        == (#[trigger] out@[a]).id@ by {
                        if a < before.len() {
                            assert(out@[a] == before[a]);
                            let j = choose|j: int| 0 <= j < i && ks[j] == before[a].id@;
                            assert(ks[j] == out@[a].id@);
                        } else {
                            assert(ks[i as int] == out@[a].id@);
                        }
                    }
                    assert forall|j: int| 0 <= j < i + 1 && source_listed(self.sources()[ks[j]], *filters, *tag_filters)
                        implies exists|a: int| 0 <= a < out@.len() && (#[trigger] out@[a]).id@ == ks[j] by {
                        if j < i {
                            let a = choose|a: int| 0 <= a < before.len() && before[a].id@ == ks[j];
                            assert(out@[a] == before[a]);
                        } else {
                            assert(out@[before.len() as int].id@ == ks[j]);
                        }
                    }
                }
            }
            i = i + 1;
        }
        out
    }

    fn source_passes(&self, s: &Source, filters: &SourceFilters, tag_filters: &TagFilters) -> (r: bool)
        ensures
            r == source_listed(*s, *filters, *tag_filters),
    {
        if let Some(label) = &filters.label {
            match &s.label {
                Some(l) => {
                    if !str_eq(l.as_str(), label.as_str()) {
                        return false;
                    }
                },
                None => {
                    return false;
                },
            }
        }
        if let Some(format) = &filters.format {
            if !str_eq(s.format.as_str(), format.as_str()) {
                return false;
            }
        }
        match &s.tags {
            Some(t) => tag_filters.matches(t),
            None => {
                let empty = Tags::new();
                let r = tag_filters.matches(&empty);
                assert(tags_or_empty(s.tags) == empty@);
                r
            },
        }
    }
}

} // verus!
