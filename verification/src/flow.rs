//! Flows: the typed fields the store reads from a flow document.
use vstd::prelude::*;
use crate::docs::{members_are_tags, tags_read_from};
use crate::error::{opt_str_view, DeletionRequest};
use crate::json::{json_bool, json_get, json_i64, json_text, Items, Json};
use crate::tags::{string_views, Tags};

verus! {

/// The fields of a flow document the store filters on and manages.
pub struct FlowCore {
    pub source_id: String,
    pub format: String,
    pub codec: Option<String>,
    pub label: Option<String>,
    pub tags: Option<Tags>,
    pub read_only: bool,
    pub timerange: Option<String>,
    pub frame_width: Option<i64>,
    pub frame_height: Option<i64>,
    pub created: Option<String>,
    pub segments_updated: Option<String>,
    pub created_by: Option<String>,
    pub flow_collection: Option<Json>,
    pub collected_by: Option<Vec<String>>,
    pub container: Option<String>,
}

/// A stored flow: its typed fields and the whole document.
pub struct StoredFlow {
    pub core: FlowCore,
    pub document: Json,
}

/// Query filters for listing flows.
pub struct FlowFilters {
    pub source_id: Option<String>,
    pub format: Option<String>,
    pub codec: Option<String>,
    pub label: Option<String>,
    pub frame_width: Option<i64>,
    pub frame_height: Option<i64>,
    pub timerange: Option<String>,
}

impl Default for FlowFilters {
    fn default() -> (r: Self)
        ensures
            r.source_id is None && r.format is None && r.codec is None && r.label is None
                && r.frame_width is None && r.frame_height is None && r.timerange is None,
    {
        FlowFilters {
            source_id: None,
            format: None,
            codec: None,
            label: None,
            frame_width: None,
            frame_height: None,
            timerange: None,
        }
    }
}

/// The text of member `k` of `doc`, when it is a string.
pub open spec fn text_member(doc: Json, k: Seq<char>) -> Option<Seq<char>> {
    json_text(json_get(doc, k))
}

/// The text of the string elements of an array, in order; other elements are skipped.
pub open spec fn string_elements(l: Items) -> Seq<Seq<char>>
    decreases l,
{
    match l {
        Items::Nil => Seq::empty(),
        Items::Cons(v, rest) => match v {
            Json::Str(s) => seq![s@] + string_elements(*rest),
            _ => string_elements(*rest),
        },
    }
}

/// The `(id, role)` pairs of a collection array: the elements that are
/// objects with a string `id` and a string `role`, in order.
pub open spec fn collection_pairs(l: Items) -> Seq<(Seq<char>, Seq<char>)>
    decreases l,
{
    match l {
        Items::Nil => Seq::empty(),
        Items::Cons(v, rest) => match (text_member(v, "id"@), text_member(v, "role"@)) {
            (Some(id), Some(role)) => seq![(id, role)] + collection_pairs(*rest),
            _ => collection_pairs(*rest),
        },
    }
}

/// The `(id, role)` pairs of a collection value; none unless it is an array.
pub open spec fn collection_items_of(v: Json) -> Seq<(Seq<char>, Seq<char>)> {
    match v {
        Json::Array(l) => collection_pairs(*l),
        _ => Seq::empty(),
    }
}

/// `core` holds what the flow document `doc` says.
pub open spec fn core_read_from(core: FlowCore, doc: Json) -> bool {
    &&& text_member(doc, "source_id"@) == Some(core.source_id@)
    &&& text_member(doc, "format"@) == Some(core.format@)
    &&& opt_str_view(core.codec) == text_member(doc, "codec"@)
    &&& opt_str_view(core.label) == text_member(doc, "label"@)
    &&& core.read_only == (json_bool(json_get(doc, "read_only"@)) == Some(true))
    &&& opt_str_view(core.timerange) == text_member(doc, "timerange"@)
    &&& core.frame_width matches Some(w) ==> json_i64(json_get(json_get(doc, "essence_parameters"@)->0, "frame_width"@)) == Some(w as int)
    &&& (core.frame_width is Some <==> (json_get(doc, "essence_parameters"@) is Some
        && json_i64(json_get(json_get(doc, "essence_parameters"@)->0, "frame_width"@)) is Some))
    &&& core.frame_height matches Some(h) ==> json_i64(json_get(json_get(doc, "essence_parameters"@)->0, "frame_height"@)) == Some(h as int)
    &&& (core.frame_height is Some <==> (json_get(doc, "essence_parameters"@) is Some
        && json_i64(json_get(json_get(doc, "essence_parameters"@)->0, "frame_height"@)) is Some))
    &&& opt_str_view(core.created) == text_member(doc, "created"@)
    &&& opt_str_view(core.segments_updated) == text_member(doc, "segments_updated"@)
    &&& opt_str_view(core.created_by) == text_member(doc, "created_by"@)
    &&& opt_str_view(core.container) == text_member(doc, "container"@)
    &&& core.flow_collection == json_get(doc, "flow_collection"@)
    &&& (core.collected_by is Some <==> (json_get(doc, "collected_by"@) matches Some(Json::Array(_))))
    &&& (core.collected_by matches Some(cb) ==> (json_get(doc, "collected_by"@) matches Some(Json::Array(l))
        && string_views(cb@) == string_elements(*l)))
    &&& (core.tags is Some <==> (json_get(doc, "tags"@) matches Some(Json::Object(m)) && members_are_tags(*m)))
    &&& (core.tags matches Some(t) ==> (json_get(doc, "tags"@) matches Some(Json::Object(m)) && tags_read_from(t@, *m)))
}

/// A flow document has what every flow needs: it is an object with a
/// string `source_id` and a string `format`.
pub open spec fn has_core(doc: Json) -> bool {
    &&& doc is Object
    &&& text_member(doc, "source_id"@) is Some
    &&& text_member(doc, "format"@) is Some
}

pub(crate) fn opt_text(doc: &Json, k: &str) -> (r: Option<String>)
    ensures
        opt_str_view(r) == text_member(*doc, k@),
{
    match doc.get_str(k) {
        Some(s) => Some(s.clone()),
        None => None,
    }
}

/// The strings among the elements of an array.
pub fn string_elements_of(l: &Items) -> (r: Vec<String>)
    ensures
        string_views(r@) == string_elements(*l),
    decreases l,
{
    match l {
        Items::Nil => {
            let v: Vec<String> = Vec::new();
            assert(string_views(v@) =~= Seq::<Seq<char>>::empty());
            v
        },
        Items::Cons(v, rest) => {
            let tail = string_elements_of(rest);
            match v {
                Json::Str(s) => {
                    let mut out: Vec<String> = Vec::new();
                    out.push(s.clone());
                    let mut i: usize = 0;
                    while i < tail.len()
                        invariant
                            i <= tail@.len(),
                            out@.len() == i + 1,
                            out@[0]@ == s@,
                            forall|j: int| 0 <= j < i ==> #[trigger] out@[j + 1]@ == tail@[j]@,
                        decreases tail@.len() - i,
                    {
                        out.push(tail[i].clone());
                        i = i + 1;
                    }
                    assert(string_views(out@) =~= seq![s@] + string_views(tail@)) by {
                        assert forall|j: int| 0 <= j < out@.len() implies string_views(out@)[j] == (seq![s@]
                            + string_views(tail@))[j] by {
                            if j > 0 {
                                assert(out@[(j - 1) + 1]@ == tail@[j - 1]@);
                            }
                        }
                    }
                    out
                },
                _ => tail,
            }
        },
    }
}

/// The typed fields of a flow document; `None` unless it has a string
/// `source_id` and a string `format`.
pub fn flow_core_from_document(doc: &Json) -> (r: Option<FlowCore>)
    ensures
        r is Some <==> has_core(*doc),
        (r matches Some(c) ==> core_read_from(c, *doc)),
{
    if !doc.is_object() {
        return None;
    }
    let source_id = match doc.get_str("source_id") {
        Some(s) => s.clone(),
        None => {
            return None;
        },
    };
    let format = match doc.get_str("format") {
        Some(s) => s.clone(),
        None => {
            return None;
        },
    };
    let (frame_width, frame_height) = match doc.get("essence_parameters") {
        Some(ep) => (ep.get_i64("frame_width"), ep.get_i64("frame_height")),
        None => (None, None),
    };
    let tags = match doc.get("tags") {
        Some(t) => crate::docs::tags_from_json(t),
        None => None,
    };
    let collected_by = match doc.get("collected_by") {
        Some(Json::Array(l)) => Some(string_elements_of(l)),
        _ => None,
    };
    let flow_collection = match doc.get("flow_collection") {
        Some(v) => Some(v.copy()),
        None => None,
    };
    Some(
        FlowCore {
            source_id,
            format,
            codec: opt_text(doc, "codec"),
            label: opt_text(doc, "label"),
            tags,
            read_only: doc.get_bool("read_only") == Some(true),
            timerange: opt_text(doc, "timerange"),
            frame_width,
            frame_height,
            created: opt_text(doc, "created"),
            segments_updated: opt_text(doc, "segments_updated"),
            created_by: opt_text(doc, "created_by"),
            flow_collection,
            collected_by,
            container: opt_text(doc, "container"),
        },
    )
}

/// The `(id, role)` pairs of a collection array.
fn pairs_of_items(l: &Items) -> (r: Vec<(String, String)>)
    ensures
        r@.len() == collection_pairs(*l).len(),
        forall|i: int| 0 <= i < r@.len() ==> (#[trigger] r@[i]).0@ == collection_pairs(*l)[i].0
            && r@[i].1@ == collection_pairs(*l)[i].1,
    decreases l,
{
    match l {
        Items::Nil => Vec::new(),
        Items::Cons(v, rest) => {
            let tail = pairs_of_items(rest);
            match (v.get_str("id"), v.get_str("role")) {
                (Some(id), Some(role)) => {
                    let mut out: Vec<(String, String)> = Vec::new();
                    out.push((id.clone(), role.clone()));
                    let mut i: usize = 0;
                    while i < tail.len()
                        invariant
                            i <= tail@.len(),
                            out@.len() == i + 1,
                            out@[0].0@ == id@ && out@[0].1@ == role@,
                            forall|j: int| 0 <= j < i ==> #[trigger] out@[j + 1].0@ == tail@[j].0@
                                && out@[j + 1].1@ == tail@[j].1@,
                        decreases tail@.len() - i,
                    {
                        out.push((tail[i].0.clone(), tail[i].1.clone()));
                        i = i + 1;
                    }
                    proof {
                        let cp = collection_pairs(*l);
                        assert(cp == seq![(id@, role@)] + collection_pairs(**rest));
                        assert forall|i: int| 0 <= i < out@.len() implies (#[trigger] out@[i]).0@ == cp[i].0
                            && out@[i].1@ == cp[i].1 by {
                            if i > 0 {
                                assert(out@[(i - 1) + 1].0@ == tail@[i - 1].0@);
                            }
                        }
                    }
                    out
                },
                _ => tail,
            }
        },
    }
}

/// The `(id, role)` pairs of a flow_collection value.
pub fn extract_collection_items(value: &Json) -> (r: Vec<(String, String)>)
    ensures
        r@.len() == collection_items_of(*value).len(),
        forall|i: int| 0 <= i < r@.len() ==> (#[trigger] r@[i]).0@ == collection_items_of(*value)[i].0
            && r@[i].1@ == collection_items_of(*value)[i].1,
{
    match value {
        Json::Array(l) => pairs_of_items(l),
        _ => Vec::new(),
    }
}

/// The child flow ids of a flow's collection.
pub open spec fn child_ids_of(core: FlowCore) -> Seq<Seq<char>> {
    match core.flow_collection {
        Some(v) => collection_items_of(v).map_values(|p: (Seq<char>, Seq<char>)| p.0),
        None => Seq::empty(),
    }
}

/// The child flow ids of a flow's collection.
pub fn extract_collection_child_ids_from_core(core: &FlowCore) -> (r: Vec<String>)
    ensures
        string_views(r@) == child_ids_of(*core),
{
    match &core.flow_collection {
        Some(v) => {
            let items = extract_collection_items(v);
            let mut out: Vec<String> = Vec::new();
            let mut i: usize = 0;
            while i < items.len()
                invariant
                    i <= items@.len(),
                    out@.len() == i,
                    forall|j: int| 0 <= j < i ==> #[trigger] out@[j]@ == items@[j].0@,
                decreases items@.len() - i,
            {
                out.push(items[i].0.clone());
                i = i + 1;
            }
            assert(string_views(out@) =~= child_ids_of(*core));
            out
        },
        None => {
            let out: Vec<String> = Vec::new();
            assert(string_views(out@) =~= child_ids_of(*core));
            out
        },
    }
}

} // verus!
