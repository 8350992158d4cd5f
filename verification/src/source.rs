//! Sources: the content that flows are renditions of.
use vstd::prelude::*;
use crate::error::opt_str_view;
use crate::docs::{items_strings, members_are_tags, tags_read_from};
use crate::json::{items_seq, json_get, json_text, member, member_names, object_names, Items, Json, Members};
use crate::tags::string_views;
use crate::tags::Tags;

verus! {

/// A source resource.
pub struct Source {
    pub id: String,
    pub format: String,
    pub label: Option<String>,
    pub description: Option<String>,
    pub tags: Option<Tags>,
    pub created_by: Option<String>,
    pub updated_by: Option<String>,
    pub created: Option<String>,
    pub updated: Option<String>,
    pub source_collection: Option<Vec<CollectionItem>>,
    pub collected_by: Option<Vec<String>>,
}

/// A member of a collection and its role.
pub struct CollectionItem {
    pub id: String,
    pub role: String,
}

/// Query filters for listing sources.
pub struct SourceFilters {
    pub label: Option<String>,
    pub format: Option<String>,
}

impl Default for SourceFilters {
    fn default() -> (r: Self)
        ensures
            r.label is None,
            r.format is None,
    {
        SourceFilters { label: None, format: None }
    }
}

/// The server-managed fields a stored source gets when they are missing:
/// both times `now`, empty tags, and the server as creator and updater.
pub open spec fn with_defaults(s: Source, filled: Source, now: Seq<char>) -> bool {
    &&& filled.id == s.id
    &&& filled.format == s.format
    &&& filled.label == s.label
    &&& filled.description == s.description
    &&& filled.source_collection == s.source_collection
    &&& filled.collected_by == s.collected_by
    &&& opt_str_view(filled.created) == (if s.created is Some { opt_str_view(s.created) } else { Some(now) })
    &&& opt_str_view(filled.updated) == (if s.updated is Some { opt_str_view(s.updated) } else { Some(now) })
    &&& (s.tags is Some ==> filled.tags == s.tags)
    &&& (s.tags is None ==> (filled.tags matches Some(t) && t@ == Map::<Seq<char>, crate::tags::TagValue>::empty()))
    &&& opt_str_view(filled.created_by) == (if s.created_by is Some { opt_str_view(s.created_by) } else { Some("server"@) })
    &&& opt_str_view(filled.updated_by) == (if s.updated_by is Some { opt_str_view(s.updated_by) } else { Some("server"@) })
}

/// Fills in the server-managed fields of a source that are not set.
pub fn fill_source_defaults(source: Source, now: &str) -> (r: Source)
    ensures
        with_defaults(source, r, now@),
{
    let mut s = source;
    if s.created.is_none() {
        s.created = Some(now.to_owned());
    }
    if s.updated.is_none() {
        s.updated = Some(now.to_owned());
    }
    if s.tags.is_none() {
        s.tags = Some(Tags::new());
    }
    if s.created_by.is_none() {
        s.created_by = Some("server".to_owned());
    }
    if s.updated_by.is_none() {
        s.updated_by = Some("server".to_owned());
    }
    s
}

/// A JSON string value.
pub fn json_string(s: &str) -> (r: Json)
    ensures
        r == Json::Str(r->Str_0) && r->Str_0@ == s@,
{
    Json::Str(s.to_owned())
}

/// A JSON array of strings.
pub fn json_strings(v: &[String]) -> (r: Json)
    ensures
        (r matches Json::Array(l) && items_strings(*l) == Some(string_views(v@))),
{
    let mut items = Items::Nil;
    let mut i = v.len();
    assert(string_views(v@).skip(i as int) =~= Seq::<Seq<char>>::empty());
    while i > 0
        invariant
            i <= v@.len(),
            items_strings(items) == Some(string_views(v@).skip(i as int)),
        decreases i,
    {
        i = i - 1;
        items = Items::Cons(Json::Str(v[i].clone()), Box::new(items));
        assert(seq![v@[i as int]@] + string_views(v@).skip(i + 1) =~= string_views(v@).skip(i as int));
    }
    assert(string_views(v@).skip(0) =~= string_views(v@));
    Json::Array(Box::new(items))
}

/// The member `k` of `j` is the string `v`, and is absent when there is none.
pub open spec fn str_field(j: Json, k: Seq<char>, v: Option<String>) -> bool {
    match (json_get(j, k), v) {
        (None, None) => true,
        (Some(Json::Str(x)), Some(y)) => x@ == y@,
        _ => false,
    }
}

/// The member `k` of `j` is the array of the strings `v`, and is absent when there are none.
pub open spec fn strings_field(j: Json, k: Seq<char>, v: Option<Vec<String>>) -> bool {
    match (json_get(j, k), v) {
        (None, None) => true,
        (Some(Json::Array(l)), Some(x)) => items_strings(*l) == Some(string_views(x@)),
        _ => false,
    }
}

/// The `tags` member of `j` holds the tags `v`, and is absent when there are none.
pub open spec fn tags_field(j: Json, v: Option<Tags>) -> bool {
    match (json_get(j, "tags"@), v) {
        (None, None) => true,
        (Some(Json::Object(m)), Some(t)) => members_are_tags(*m) && tags_read_from(t@, *m),
        _ => false,
    }
}

/// `j` is the JSON object of a collection item: its id and role, in that order.
pub open spec fn item_json(j: Json, c: CollectionItem) -> bool {
    &&& json_text(json_get(j, "id"@)) == Some(c.id@)
    &&& json_text(json_get(j, "role"@)) == Some(c.role@)
    &&& object_names(j) == seq!["id"@, "role"@]
}

/// The JSON values `js` are the objects of the collection items `cs`, in order.
pub open spec fn collection_items_json(js: Seq<Json>, cs: Seq<CollectionItem>) -> bool {
    &&& js.len() == cs.len()
    &&& forall|i: int| 0 <= i < js.len() ==> #[trigger] item_json(js[i], cs[i])
}

/// The `source_collection` member of `j` lists the items `v`, and is absent when there are none.
pub open spec fn collection_field(j: Json, v: Option<Vec<CollectionItem>>) -> bool {
    match (json_get(j, "source_collection"@), v) {
        (None, None) => true,
        (Some(Json::Array(l)), Some(x)) => collection_items_json(items_seq(*l), x@),
        _ => false,
    }
}

/// The names of the fields of a source document.
pub open spec fn source_field_name(k: Seq<char>) -> bool {
    ||| k == "id"@
    ||| k == "format"@
    ||| k == "label"@
    ||| k == "description"@
    ||| k == "tags"@
    ||| k == "created_by"@
    ||| k == "updated_by"@
    ||| k == "created"@
    ||| k == "updated"@
    ||| k == "source_collection"@
    ||| k == "collected_by"@
}

/// `r` is the JSON document of the source `s`: an object with `id` first,
/// the id and format, and each other field that is set, under its name.
pub open spec fn source_document(r: Json, s: Source) -> bool {
    &&& r is Object
    &&& object_names(r).len() > 0 && object_names(r)[0] == "id"@
    &&& json_text(json_get(r, "id"@)) == Some(s.id@)
    &&& json_text(json_get(r, "format"@)) == Some(s.format@)
    &&& str_field(r, "label"@, s.label)
    &&& str_field(r, "description"@, s.description)
    &&& tags_field(r, s.tags)
    &&& str_field(r, "created_by"@, s.created_by)
    &&& str_field(r, "updated_by"@, s.updated_by)
    &&& str_field(r, "created"@, s.created)
    &&& str_field(r, "updated"@, s.updated)
    &&& collection_field(r, s.source_collection)
    &&& strings_field(r, "collected_by"@, s.collected_by)
    &&& forall|k: Seq<char>| #[trigger] json_get(r, k) is Some ==> source_field_name(k)
}

/// Puts a member named `name` in front of `m` when there is a value.
fn with_member(m: Members, name: &str, v: Option<Json>) -> (r: Members)
    ensures
        forall|k: Seq<char>| #[trigger] member(r, k) == (if k == name@ && v is Some { v } else { member(m, k) }),
        v is None ==> member_names(r) == member_names(m),
        v is Some ==> member_names(r) == seq![name@] + member_names(m),
{
    match v {
        Some(j) => Members::Cons(name.to_owned(), j, Box::new(m)),
        None => m,
    }
}

/// A string field as a JSON value, when set.
fn opt_json_string(v: &Option<String>) -> (r: Option<Json>)
    ensures
        match (r, *v) {
            (None, None) => true,
            (Some(Json::Str(x)), Some(y)) => x@ == y@,
            _ => false,
        },
{
    match v {
        Some(t) => Some(json_string(t.as_str())),
        None => None,
    }
}

/// The JSON document of a source: its set fields, `id` first.
#[verifier::spinoff_prover]
#[verifier::rlimit(40)]
pub fn source_json(s: &Source) -> (r: Json)
    ensures
        source_document(r, *s),
{
    let cb = match &s.collected_by {
        Some(v) => Some(json_strings(v.as_slice())),
        None => None,
    };
    let sc = match &s.source_collection {
        Some(items) => Some(collection_json(items.as_slice())),
        None => None,
    };
    let tags = match &s.tags {
        Some(t) => Some(crate::docs::tags_json(t)),
        None => None,
    };
    let m = with_member(Members::Nil, "collected_by", cb);
    let m = with_member(m, "source_collection", sc);
    let m = with_member(m, "updated", opt_json_string(&s.updated));
    let m = with_member(m, "created", opt_json_string(&s.created));
    let m = with_member(m, "updated_by", opt_json_string(&s.updated_by));
    let m = with_member(m, "created_by", opt_json_string(&s.created_by));
    let m = with_member(m, "tags", tags);
    let m = with_member(m, "description", opt_json_string(&s.description));
    let m = with_member(m, "label", opt_json_string(&s.label));
    let m = with_member(m, "format", Some(json_string(s.format.as_str())));
    let m = with_member(m, "id", Some(json_string(s.id.as_str())));
    let r = Json::Object(Box::new(m));
    proof {
        reveal_strlit("id");
        reveal_strlit("format");
        reveal_strlit("label");
        reveal_strlit("description");
        reveal_strlit("tags");
        reveal_strlit("created_by");
        reveal_strlit("updated_by");
        reveal_strlit("created");
        reveal_strlit("updated");
        reveal_strlit("source_collection");
        reveal_strlit("collected_by");
        assert("id"@[0] == 'i' && "format"@[0] == 'f' && "label"@[0] == 'l' && "description"@[0] == 'd');
        assert("tags"@[0] == 't' && "source_collection"@[0] == 's');
        assert("created_by"@[0] == 'c' && "created_by"@.len() == 10);
        assert("created"@[0] == 'c' && "created"@.len() == 7);
        assert("collected_by"@[0] == 'c' && "collected_by"@[1] == 'o');
        assert("created_by"@[1] == 'r' && "created"@[1] == 'r');
        assert("updated_by"@[0] == 'u' && "updated_by"@.len() == 10);
        assert("updated"@[0] == 'u' && "updated"@.len() == 7);
        assert(json_text(json_get(r, "id"@)) == Some(s.id@));
        assert(json_text(json_get(r, "format"@)) == Some(s.format@));
        assert(str_field(r, "label"@, s.label));
        assert(str_field(r, "description"@, s.description));
        assert(tags_field(r, s.tags));
        assert(str_field(r, "created_by"@, s.created_by));
        assert(str_field(r, "updated_by"@, s.updated_by));
        assert(str_field(r, "created"@, s.created));
        assert(str_field(r, "updated"@, s.updated));
        assert(collection_field(r, s.source_collection));
        assert(strings_field(r, "collected_by"@, s.collected_by));
        assert forall|k: Seq<char>| #[trigger] json_get(r, k) is Some implies source_field_name(k) by {
            if !source_field_name(k) {
                assert(member(m, k) is None);
            }
        }
    }
    r
}

/// The JSON object of a collection item.
#[verifier::spinoff_prover]
fn item_object(c: &CollectionItem) -> (r: Json)
    ensures
        item_json(r, *c),
{
    let role_value = json_string(c.role.as_str());
    let id_value = json_string(c.id.as_str());
    let role = Members::Cons("role".to_owned(), role_value, Box::new(Members::Nil));
    let m = Members::Cons("id".to_owned(), id_value, Box::new(role));
    let r = Json::Object(Box::new(m));
    proof {
        reveal_strlit("id");
        reveal_strlit("role");
        assert("id"@.len() == 2 && "role"@.len() == 4);
        assert(member_names(Members::Nil) =~= Seq::<Seq<char>>::empty());
        assert(member_names(role) == seq![role->Cons_0@] + member_names(Members::Nil));
        assert(role->Cons_0@ == "role"@);
        assert(member_names(role) =~= seq!["role"@]);
        assert(member_names(m) =~= seq!["id"@, "role"@]);
        assert(json_get(r, "id"@) == Some(id_value));
        assert(member(role, "role"@) == Some(role_value));
        assert(json_get(r, "role"@) == Some(role_value));
        assert(object_names(r) == member_names(m));
    }
    r
}

/// The JSON array of collection items.
pub fn collection_json(items: &[CollectionItem]) -> (r: Json)
    ensures
        (r matches Json::Array(l) && collection_items_json(items_seq(*l), items@)),
{
    let mut out = Items::Nil;
    let mut i = items.len();
    assert(items@.skip(i as int) =~= Seq::<CollectionItem>::empty());
    while i > 0
        invariant
            i <= items@.len(),
            collection_items_json(items_seq(out), items@.skip(i as int)),
        decreases i,
    {
        i = i - 1;
        let ghost before = out;
        let j = item_object(&items[i]);
        out = Items::Cons(j, Box::new(out));
        proof {
            let cs = items@.skip(i as int);
            assert(cs =~= seq![items@[i as int]] + items@.skip(i + 1));
            assert(items_seq(out) == seq![j] + items_seq(before));
            assert forall|q: int| 0 <= q < items_seq(out).len() implies #[trigger] item_json(items_seq(out)[q], cs[q]) by {
                if q > 0 {
                    assert(items_seq(out)[q] == items_seq(before)[q - 1]);
                    assert(cs[q] == items@.skip(i + 1)[q - 1]);
                }
            }
        }
    }
    assert(items@.skip(0) =~= items@);
    Json::Array(Box::new(out))
}

} // verus!
