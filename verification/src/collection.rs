//! Collections: a flow lists child flows with roles; each child, and the
//! child's source, records which collections hold it.
use vstd::prelude::*;
use crate::error::opt_str_view;
use crate::flow::{FlowCore, StoredFlow};
use crate::json::{items_seq, json_get, lemma_get_with, Items, Json};
use crate::source::{CollectionItem, Source};
use crate::strmap::{ordered_keys_of, StrMap};
use crate::tags::string_views;
use crate::text::str_eq;
use crate::webhook::listed;

verus! {

/// The strings of `s` other than `p`, in order.
pub open spec fn without_text(s: Seq<Seq<char>>, p: Seq<char>) -> Seq<Seq<char>>
    decreases s.len(),
{
    if s.len() == 0 {
        s
    } else if s.last() == p {
        without_text(s.drop_last(), p)
    } else {
        without_text(s.drop_last(), p).push(s.last())
    }
}

/// The elements of an array other than the string `p`, in order.
pub open spec fn items_without_text(l: Items, p: Seq<char>) -> Items
    decreases l,
{
    match l {
        Items::Nil => Items::Nil,
        Items::Cons(v, rest) => match v {
            Json::Str(s) => if s@ == p {
                items_without_text(*rest, p)
            } else {
                Items::Cons(v, Box::new(items_without_text(*rest, p)))
            },
            _ => Items::Cons(v, Box::new(items_without_text(*rest, p))),
        },
    }
}

/// Whether an array holds the string `p`.
pub open spec fn items_have_text(l: Items, p: Seq<char>) -> bool
    decreases l,
{
    match l {
        Items::Nil => false,
        Items::Cons(v, rest) => (v matches Json::Str(s) && s@ == p) || items_have_text(*rest, p),
    }
}

/// An array with `v` appended.
pub open spec fn items_push(l: Items, v: Json) -> Items
    decreases l,
{
    match l {
        Items::Nil => Items::Cons(v, Box::new(Items::Nil)),
        Items::Cons(x, rest) => Items::Cons(x, Box::new(items_push(*rest, v))),
    }
}

/// `new` is the object `old` with member `k` set to `v`.
pub open spec fn member_set(old: Json, new: Json, k: Seq<char>, v: Json) -> bool {
    &&& new is Object
    &&& forall|q: Seq<char>| #[trigger] json_get(new, q) == if q == k {
        Some(v)
    } else {
        json_get(old, q)
    }
}

/// Two flow cores agree on everything but the collections holding the flow.
pub open spec fn same_core_but_collected(a: FlowCore, b: FlowCore) -> bool {
    &&& a.source_id == b.source_id
    &&& a.format == b.format
    &&& a.codec == b.codec
    &&& a.label == b.label
    &&& a.tags == b.tags
    &&& a.read_only == b.read_only
    &&& a.timerange == b.timerange
    &&& a.frame_width == b.frame_width
    &&& a.frame_height == b.frame_height
    &&& a.created == b.created
    &&& a.segments_updated == b.segments_updated
    &&& a.created_by == b.created_by
    &&& a.flow_collection == b.flow_collection
    &&& a.container == b.container
}

pub open spec fn opt_list_view(o: Option<Vec<String>>) -> Option<Seq<Seq<char>>> {
    match o {
        Some(v) => Some(string_views(v@)),
        None => None,
    }
}

/// A flow's collections with `p` left out.
pub open spec fn cb_removed(o: Option<Seq<Seq<char>>>, p: Seq<char>) -> Option<Seq<Seq<char>>> {
    match o {
        Some(v) => Some(without_text(v, p)),
        None => None,
    }
}

/// A flow's collections with `p` added at the end if missing.
pub open spec fn cb_added(o: Option<Seq<Seq<char>>>, p: Seq<char>) -> Option<Seq<Seq<char>>> {
    match o {
        Some(v) => if v.contains(p) {
            Some(v)
        } else {
            Some(v.push(p))
        },
        None => Some(seq![p]),
    }
}

/// The collected_by member of a flow document with `p` left out.
pub open spec fn doc_cb_removed(old: Json, new: Json, p: Seq<char>) -> bool {
    match json_get(old, "collected_by"@) {
        Some(Json::Array(l)) => member_set(old, new, "collected_by"@, Json::Array(Box::new(items_without_text(*l, p)))),
        _ => new == old,
    }
}

/// The collected_by member of a flow document with `p` appended if missing.
pub open spec fn doc_cb_added(old: Json, new: Json, p: Seq<char>) -> bool {
    match json_get(old, "collected_by"@) {
        None => if old is Object {
            exists|s: String| s@ == p && #[trigger] member_set(old, new, "collected_by"@, Json::Array(Box::new(Items::Cons(Json::Str(s), Box::new(Items::Nil)))))
        } else {
            new == old
        },
        Some(Json::Array(l)) => if items_have_text(*l, p) {
            new == old
        } else {
            exists|s: String| s@ == p && #[trigger] member_set(old, new, "collected_by"@, Json::Array(Box::new(items_push(*l, Json::Str(s)))))
        },
        _ => new == old,
    }
}

fn strings_without(v: &Vec<String>, p: &str) -> (r: Vec<String>)
    ensures
        string_views(r@) == without_text(string_views(v@), p@),
{
    let mut out: Vec<String> = Vec::new();
    let mut i: usize = 0;
    assert(string_views(v@).take(0) =~= Seq::<Seq<char>>::empty());
    while i < v.len()
        invariant
            i <= v@.len(),
            string_views(out@) == without_text(string_views(v@).take(i as int), p@),
        decreases v@.len() - i,
    {
        let ghost t = string_views(v@).take(i + 1);
        assert(t.drop_last() =~= string_views(v@).take(i as int));
        if !str_eq(v[i].as_str(), p) {
            let ghost before = out@;
            out.push(v[i].clone());
            assert(string_views(out@) =~= string_views(before).push(v@[i as int]@));
        }
        i = i + 1;
    }
    assert(string_views(v@).take(i as int) =~= string_views(v@));
    out
}

fn items_without(l: &Items, p: &str) -> (r: Items)
    ensures
        r == items_without_text(*l, p@),
    decreases l,
{
    match l {
        Items::Nil => Items::Nil,
        Items::Cons(v, rest) => {
            let tail = items_without(rest, p);
            match v {
                Json::Str(s) => {
                    if str_eq(s.as_str(), p) {
                        tail
                    } else {
                        Items::Cons(v.copy(), Box::new(tail))
                    }
                },
                _ => Items::Cons(v.copy(), Box::new(tail)),
            }
        },
    }
}

fn items_hold(l: &Items, p: &str) -> (r: bool)
    ensures
        r == items_have_text(*l, p@),
    decreases l,
{
    match l {
        Items::Nil => false,
        Items::Cons(v, rest) => {
            let here = match v {
                Json::Str(s) => str_eq(s.as_str(), p),
                _ => false,
            };
            here || items_hold(rest, p)
        },
    }
}

fn items_appended(l: &Items, v: Json) -> (r: Items)
    ensures
        r == items_push(*l, v),
    decreases l,
{
    match l {
        Items::Nil => Items::Cons(v, Box::new(Items::Nil)),
        Items::Cons(x, rest) => Items::Cons(x.copy(), Box::new(items_appended(rest, v))),
    }
}

fn set_member(doc: &mut Json, k: &str, v: Json)
    requires
        *old(doc) is Object,
    ensures
        member_set(*old(doc), *final(doc), k@, v),
{
    let ghost before = *doc;
    let name = k.to_owned();
    let ghost nv = name;
    doc.insert(name, v);
    proof {
        assert forall|q: Seq<char>| #[trigger] json_get(*doc, q) == if q == k@ {
            Some(v)
        } else {
            json_get(before, q)
        } by {
            lemma_get_with(before, nv, v, q);
        }
    }
}

/// Leaves `p` out of the collected_by member of a flow document.
fn doc_remove_parent(doc: &mut Json, p: &str)
    ensures
        doc_cb_removed(*old(doc), *final(doc), p@),
{
    let edited = match doc.get("collected_by") {
        Some(Json::Array(l)) => Some(items_without(l, p)),
        _ => None,
    };
    if let Some(items) = edited {
        set_member(doc, "collected_by", Json::Array(Box::new(items)));
    }
}

/// Appends `p` to the collected_by member of a flow document, creating it if absent.
fn doc_add_parent(doc: &mut Json, p: &str)
    ensures
        doc_cb_added(*old(doc), *final(doc), p@),
{
    let ghost before = *doc;
    match doc.get("collected_by") {
        None => {
            if doc.is_object() {
                let s = p.to_owned();
                let ghost sv = s;
                set_member(doc, "collected_by", Json::Array(Box::new(Items::Cons(Json::Str(s), Box::new(Items::Nil)))));
                assert(member_set(before, *doc, "collected_by"@, Json::Array(Box::new(Items::Cons(Json::Str(sv), Box::new(Items::Nil))))));
            }
        },
        Some(Json::Array(l)) => {
            if !items_hold(l, p) {
                let s = p.to_owned();
                let ghost sv = s;
                let ghost lv = **l;
                let items = items_appended(l, Json::Str(s));
                set_member(doc, "collected_by", Json::Array(Box::new(items)));
                assert(member_set(before, *doc, "collected_by"@, Json::Array(Box::new(items_push(lv, Json::Str(sv))))));
            }
        },
        _ => {},
    }
}

/// A flow's collection membership after `p` is removed (when `remove`) and
/// then added (when `add`).
pub open spec fn relinked(a: StoredFlow, b: StoredFlow, p: Seq<char>, remove: bool, add: bool) -> bool {
    &&& same_core_but_collected(a.core, b.core)
    &&& opt_list_view(b.core.collected_by) == {
        let c1 = if remove {
            cb_removed(opt_list_view(a.core.collected_by), p)
        } else {
            opt_list_view(a.core.collected_by)
        };
        if add {
            cb_added(c1, p)
        } else {
            c1
        }
    }
    &&& exists|mid: Json| #[trigger] doc_relinked(a.document, mid, b.document, p, remove, add)
}

/// Relinking a flow touches no member of its document but `collected_by`.
pub proof fn lemma_relinked_keeps(a: StoredFlow, b: StoredFlow, p: Seq<char>, remove: bool, add: bool, q: Seq<char>)
    requires
        relinked(a, b, p, remove, add),
        q != "collected_by"@,
    ensures
        json_get(b.document, q) == json_get(a.document, q),
{
    let mid = choose|mid: Json| #[trigger] doc_relinked(a.document, mid, b.document, p, remove, add);
    assert(json_get(mid, q) == json_get(a.document, q));
}

/// A flow document passed through `mid` on its way from `a` to `b`: `p`
/// left out of its collections (when `remove`), then added (when `add`).
pub open spec fn doc_relinked(a: Json, mid: Json, b: Json, p: Seq<char>, remove: bool, add: bool) -> bool {
    &&& if remove {
        doc_cb_removed(a, mid, p)
    } else {
        mid == a
    }
    &&& if add {
        doc_cb_added(mid, b, p)
    } else {
        b == mid
    }
}

/// Records in one flow that it is no longer (`remove`) or now (`add`) in collection `p`.
fn relink_flow(f: StoredFlow, p: &str, remove: bool, add: bool) -> (r: StoredFlow)
    ensures
        relinked(f, r, p@, remove, add),
{
    let mut f = f;
    let ghost d0 = f.document;
    if remove {
        doc_remove_parent(&mut f.document, p);
        f.core.collected_by = match f.core.collected_by {
            Some(v) => Some(strings_without(&v, p)),
            None => None,
        };
    }
    let ghost d1 = f.document;
    if add {
        doc_add_parent(&mut f.document, p);
        let cb = f.core.collected_by;
        f.core.collected_by = match cb {
            Some(v) => {
                if listed(v.as_slice(), p) {
                    Some(v)
                } else {
                    let mut v = v;
                    let ghost before = v@;
                    v.push(p.to_owned());
                    assert(string_views(v@) =~= string_views(before).push(p@));
                    Some(v)
                }
            },
            None => {
                let mut v: Vec<String> = Vec::new();
                v.push(p.to_owned());
                assert(string_views(v@) =~= seq![p@]);
                Some(v)
            },
        };
    }
    proof {
        assert(if remove { doc_cb_removed(d0, d1, p@) } else { d1 == d0 });
        assert(if add { doc_cb_added(d1, f.document, p@) } else { f.document == d1 });
        assert(doc_relinked(d0, d1, f.document, p@, remove, add));
    }
    f
}

/// Updates which collections each flow is in: every flow among `old_child_ids`
/// leaves `parent_id`, then every flow among `new_child_ids` joins it.
pub fn relink_children(
    flows: &mut StrMap<StoredFlow>,
    old_child_ids: &Vec<String>,
    new_child_ids: &Vec<String>,
    parent_id: &str,
)
    ensures
        final(flows)@.dom() == old(flows)@.dom(),
        forall|k: Seq<char>| #[trigger] old(flows)@.contains_key(k) ==> {
            let remove = string_views(old_child_ids@).contains(k);
            let add = string_views(new_child_ids@).contains(k);
            if remove || add {
                relinked(old(flows)@[k], final(flows)@[k], parent_id@, remove, add)
            } else {
                final(flows)@[k] == old(flows)@[k]
            }
        },
{
    let mut taken: StrMap<StoredFlow> = StrMap::new();
    std::mem::swap(&mut taken, flows);
    let ghost m = taken@;
    let ghost ks = taken.keys();
    let entries = taken.into_entries();
    let n = entries.len();
    let mut rebuilt: StrMap<StoredFlow> = StrMap::new();
    let mut entries = entries;
    let mut i: usize = n;
    let ghost all = entries@;
    while i > 0
        invariant
            i <= n,
            n == all.len(),
            entries@ == all.take(i as int),
            all.len() == ks.len(),
            forall|j: int| 0 <= j < all.len() ==> (#[trigger] all[j]).0@ == ks[j] && m[all[j].0@] == all[j].1,
            ordered_keys_of(ks, m),
            forall|k: Seq<char>| #[trigger] rebuilt@.contains_key(k) <==> exists|j: int| i <= j < n && ks[j] == k,
            forall|j: int| i <= j < n ==> {
                let k = #[trigger] ks[j];
                let remove = string_views(old_child_ids@).contains(k);
                let add = string_views(new_child_ids@).contains(k);
                if remove || add {
                    relinked(m[k], rebuilt@[k], parent_id@, remove, add)
                } else {
                    rebuilt@[k] == m[k]
                }
            },
        decreases i,
    {
        let (k, f) = entries.pop().unwrap();
        i = i - 1;
        assert(all[i as int] == (k, f));
        let remove = listed(old_child_ids.as_slice(), k.as_str());
        let add = listed(new_child_ids.as_slice(), k.as_str());
        let ghost before = rebuilt@;
        if remove || add {
            let g = relink_flow(f, parent_id, remove, add);
            rebuilt.insert(k, g);
        } else {
            rebuilt.insert(k, f);
        }
        proof {
            assert forall|k2: Seq<char>| #[trigger] rebuilt@.contains_key(k2) <==> exists|j: int| i <= j < n && ks[j] == k2 by {
                if rebuilt@.contains_key(k2) && k2 != ks[i as int] {
                    assert(before.contains_key(k2));
                }
            }
            assert forall|j: int| i < j < n implies ks[j] != ks[i as int] by {
                crate::order::lemma_lt_irreflexive(ks[i as int]);
            }
        }
    }
    proof {
        assert forall|k: Seq<char>| rebuilt@.dom().contains(k) <==> m.dom().contains(k) by {
            if m.contains_key(k) {
                let j = choose|j: int| 0 <= j < ks.len() && ks[j] == k;
            }
        }
        assert(rebuilt@.dom() =~= m.dom());
        assert forall|k: Seq<char>| #[trigger] m.contains_key(k) implies {
            let remove = string_views(old_child_ids@).contains(k);
            let add = string_views(new_child_ids@).contains(k);
            if remove || add {
                relinked(m[k], rebuilt@[k], parent_id@, remove, add)
            } else {
                rebuilt@[k] == m[k]
            }
        } by {
            let j = choose|j: int| 0 <= j < ks.len() && ks[j] == k;
            assert(ks[j] == k);
        }
    }
    *flows = rebuilt;
}

/// A source's collections with `p` left out; none left becomes none.
pub open spec fn source_cb_removed(o: Option<Seq<Seq<char>>>, p: Seq<char>) -> Option<Seq<Seq<char>>> {
    match o {
        Some(v) => if without_text(v, p).len() == 0 {
            None
        } else {
            Some(without_text(v, p))
        },
        None => None,
    }
}

/// A source after its collection memberships are updated for the collection
/// source `p`: left (when `remove`), then joined (when `add`); the parent
/// itself (when `is_parent`) gets `items` as its collection.
pub open spec fn source_relinked(
    a: Source,
    b: Source,
    p: Seq<char>,
    remove: bool,
    add: bool,
    is_parent: bool,
    items: Option<Seq<(Seq<char>, Seq<char>)>>,
) -> bool {
    &&& b.id == a.id
    &&& b.format == a.format
    &&& b.label == a.label
    &&& b.description == a.description
    &&& b.tags == a.tags
    &&& b.created_by == a.created_by
    &&& b.updated_by == a.updated_by
    &&& b.created == a.created
    &&& b.updated == a.updated
    &&& if is_parent {
        opt_item_views(b.source_collection) == items
    } else {
        b.source_collection == a.source_collection
    }
    &&& opt_list_view(b.collected_by) == {
        let c1 = if remove {
            source_cb_removed(opt_list_view(a.collected_by), p)
        } else {
            opt_list_view(a.collected_by)
        };
        if add {
            cb_added(c1, p)
        } else {
            c1
        }
    }
}

pub open spec fn opt_item_views(o: Option<Vec<CollectionItem>>) -> Option<Seq<(Seq<char>, Seq<char>)>> {
    match o {
        Some(v) => Some(item_views(v@)),
        None => None,
    }
}

/// The ids of collection items.
pub open spec fn item_ids(items: Option<Vec<CollectionItem>>) -> Seq<Seq<char>> {
    match items {
        Some(v) => v@.map_values(|c: CollectionItem| c.id@),
        None => Seq::empty(),
    }
}

fn ids_of_items(items: &Option<Vec<CollectionItem>>) -> (r: Vec<String>)
    ensures
        string_views(r@) == item_ids(*items),
{
    let mut out: Vec<String> = Vec::new();
    match items {
        Some(v) => {
            let mut i: usize = 0;
            while i < v.len()
                invariant
                    i <= v@.len(),
                    out@.len() == i,
                    forall|j: int| 0 <= j < i ==> #[trigger] out@[j]@ == v@[j].id@,
                decreases v@.len() - i,
            {
                out.push(v[i].id.clone());
                i = i + 1;
            }
            assert(string_views(out@) =~= item_ids(*items));
        },
        None => {
            assert(string_views(out@) =~= item_ids(*items));
        },
    }
    out
}

fn relink_source(
    s: Source,
    p: &str,
    remove: bool,
    add: bool,
    is_parent: bool,
    items: &mut Option<Vec<CollectionItem>>,
) -> (r: Source)
    ensures
        source_relinked(s, r, p@, remove, add, is_parent, opt_item_views(*old(items))),
        is_parent ==> *final(items) is None,
        !is_parent ==> *final(items) == *old(items),
{
    let mut s = s;
    if is_parent {
        let mut taken: Option<Vec<CollectionItem>> = None;
        std::mem::swap(&mut taken, items);
        s.source_collection = taken;
    }
    if remove {
        s.collected_by = match s.collected_by {
            Some(v) => {
                let w = strings_without(&v, p);
                if w.len() == 0 {
                    None
                } else {
                    Some(w)
                }
            },
            None => None,
        };
    }
    if add {
        let cb = s.collected_by;
        s.collected_by = match cb {
            Some(v) => {
                if listed(v.as_slice(), p) {
                    Some(v)
                } else {
                    let mut v = v;
                    let ghost before = v@;
                    v.push(p.to_owned());
                    assert(string_views(v@) =~= string_views(before).push(p@));
                    Some(v)
                }
            },
            None => {
                let mut v: Vec<String> = Vec::new();
                v.push(p.to_owned());
                assert(string_views(v@) =~= seq![p@]);
                Some(v)
            },
        };
    }
    s
}

/// Sets a source collection and updates its members: the parent source
/// gets `new_items` as its collection; every source among
/// `old_child_source_ids` leaves the parent's collections; every source
/// among the new items (other than the parent) joins them.
pub fn sync_source_collection(
    sources: &mut StrMap<Source>,
    parent_source_id: &str,
    new_items: Option<Vec<CollectionItem>>,
    old_child_source_ids: &Vec<String>,
)
    ensures
        final(sources)@.dom() == old(sources)@.dom(),
        forall|k: Seq<char>| #[trigger] old(sources)@.contains_key(k) ==> source_relinked(
            old(sources)@[k],
            final(sources)@[k],
            parent_source_id@,
            string_views(old_child_source_ids@).contains(k),
            item_ids(new_items).contains(k) && k != parent_source_id@,
            k == parent_source_id@,
            opt_item_views(new_items),
        ),
{
    let new_ids = ids_of_items(&new_items);
    let mut items = new_items;
    let mut taken: StrMap<Source> = StrMap::new();
    std::mem::swap(&mut taken, sources);
    let ghost m = taken@;
    let ghost ks = taken.keys();
    let entries = taken.into_entries();
    let n = entries.len();
    let mut rebuilt: StrMap<Source> = StrMap::new();
    let mut entries = entries;
    let mut i: usize = n;
    let ghost all = entries@;
    let ghost items0 = items;
    while i > 0
        invariant
            i <= n,
            n == all.len(),
            entries@ == all.take(i as int),
            all.len() == ks.len(),
            forall|j: int| 0 <= j < all.len() ==> (#[trigger] all[j]).0@ == ks[j] && m[all[j].0@] == all[j].1,
            ordered_keys_of(ks, m),
            string_views(new_ids@) == item_ids(items0),
            (exists|j: int| i <= j < n && ks[j] == parent_source_id@) ==> items is None,
            !(exists|j: int| i <= j < n && ks[j] == parent_source_id@) ==> items == items0,
            forall|k: Seq<char>| #[trigger] rebuilt@.contains_key(k) <==> exists|j: int| i <= j < n && ks[j] == k,
            forall|j: int| i <= j < n ==> source_relinked(
                m[#[trigger] ks[j]],
                rebuilt@[ks[j]],
                parent_source_id@,
                string_views(old_child_source_ids@).contains(ks[j]),
                item_ids(items0).contains(ks[j]) && ks[j] != parent_source_id@,
                ks[j] == parent_source_id@,
                opt_item_views(items0),
            ),
        decreases i,
    {
        let (k, s) = entries.pop().unwrap();
        i = i - 1;
        assert(all[i as int] == (k, s));
        proof {
            assert forall|j: int| i < j < n implies ks[j] != ks[i as int] by {
                crate::order::lemma_lt_irreflexive(ks[i as int]);
            }
        }
        let remove = listed(old_child_source_ids.as_slice(), k.as_str());
        let is_parent = str_eq(k.as_str(), parent_source_id);
        let add = listed(new_ids.as_slice(), k.as_str()) && !is_parent;
        let ghost before = rebuilt@;
        let g = relink_source(s, parent_source_id, remove, add, is_parent, &mut items);
        rebuilt.insert(k, g);
        proof {
            assert forall|k2: Seq<char>| #[trigger] rebuilt@.contains_key(k2) <==> exists|j: int| i <= j < n && ks[j] == k2 by {
                if rebuilt@.contains_key(k2) && k2 != ks[i as int] {
                    assert(before.contains_key(k2));
                }
            }
        }
    }
    proof {
        assert forall|k: Seq<char>| rebuilt@.dom().contains(k) <==> m.dom().contains(k) by {
            if m.contains_key(k) {
                let j = choose|j: int| 0 <= j < ks.len() && ks[j] == k;
            }
        }
        assert(rebuilt@.dom() =~= m.dom());
        assert forall|k: Seq<char>| #[trigger] m.contains_key(k) implies source_relinked(
            m[k],
            rebuilt@[k],
            parent_source_id@,
            string_views(old_child_source_ids@).contains(k),
            item_ids(items0).contains(k) && k != parent_source_id@,
            k == parent_source_id@,
            opt_item_views(items0),
        ) by {
            let j = choose|j: int| 0 <= j < ks.len() && ks[j] == k;
            assert(ks[j] == k);
        }
    }
    *sources = rebuilt;
}

/// The sources of the listed flows that exist, in order.
pub open spec fn source_ids_of(flows: Map<Seq<char>, StoredFlow>, ids: Seq<Seq<char>>) -> Seq<Seq<char>>
    decreases ids.len(),
{
    if ids.len() == 0 {
        Seq::empty()
    } else {
        let rest = source_ids_of(flows, ids.drop_last());
        if flows.contains_key(ids.last()) {
            rest.push(flows[ids.last()].core.source_id@)
        } else {
            rest
        }
    }
}

/// The source collection items of flow collection items whose flow exists:
/// each flow's source with the item's role, in order.
pub open spec fn source_items_of(flows: Map<Seq<char>, StoredFlow>, items: Seq<(Seq<char>, Seq<char>)>) -> Seq<
    (Seq<char>, Seq<char>),
>
    decreases items.len(),
{
    if items.len() == 0 {
        Seq::empty()
    } else {
        let rest = source_items_of(flows, items.drop_last());
        if flows.contains_key(items.last().0) {
            rest.push((flows[items.last().0].core.source_id@, items.last().1))
        } else {
            rest
        }
    }
}

pub open spec fn pair_views(v: Seq<(String, String)>) -> Seq<(Seq<char>, Seq<char>)> {
    v.map_values(|p: (String, String)| (p.0@, p.1@))
}

pub open spec fn item_views(v: Seq<CollectionItem>) -> Seq<(Seq<char>, Seq<char>)> {
    v.map_values(|c: CollectionItem| (c.id@, c.role@))
}

/// Map flow IDs to their source_ids via the flows map.
pub fn resolve_flow_ids_to_source_ids(flows: &StrMap<StoredFlow>, flow_ids: &Vec<String>) -> (r: Vec<String>)
    ensures
        string_views(r@) == source_ids_of(flows@, string_views(flow_ids@)),
{
    let mut out: Vec<String> = Vec::new();
    let mut i: usize = 0;
    assert(string_views(flow_ids@).take(0) =~= Seq::<Seq<char>>::empty());
    while i < flow_ids.len()
        invariant
            i <= flow_ids@.len(),
            string_views(out@) == source_ids_of(flows@, string_views(flow_ids@).take(i as int)),
        decreases flow_ids@.len() - i,
    {
        let ghost t = string_views(flow_ids@).take(i + 1);
        assert(t.drop_last() =~= string_views(flow_ids@).take(i as int));
        assert(t.last() == flow_ids@[i as int]@);
        match flows.get(flow_ids[i].as_str()) {
            Some(f) => {
                let ghost before = out@;
                out.push(f.core.source_id.clone());
                assert(string_views(out@) =~= string_views(before).push(f.core.source_id@));
            },
            None => {},
        }
        i = i + 1;
    }
    assert(string_views(flow_ids@).take(i as int) =~= string_views(flow_ids@));
    out
}

/// Build source_collection items from (flow_id, role) pairs by resolving
/// each flow's source_id via the flows map.
pub fn build_source_collection_items(flows: &StrMap<StoredFlow>, flow_items: &Vec<(String, String)>) -> (r: Vec<CollectionItem>)
    ensures
        item_views(r@) == source_items_of(flows@, pair_views(flow_items@)),
{
    let mut out: Vec<CollectionItem> = Vec::new();
    let mut i: usize = 0;
    assert(pair_views(flow_items@).take(0) =~= Seq::<(Seq<char>, Seq<char>)>::empty());
    while i < flow_items.len()
        invariant
            i <= flow_items@.len(),
            item_views(out@) == source_items_of(flows@, pair_views(flow_items@).take(i as int)),
        decreases flow_items@.len() - i,
    {
        let ghost t = pair_views(flow_items@).take(i + 1);
        assert(t.drop_last() =~= pair_views(flow_items@).take(i as int));
        assert(t.last() == (flow_items@[i as int].0@, flow_items@[i as int].1@));
        match flows.get(flow_items[i].0.as_str()) {
            Some(f) => {
                let ghost before = out@;
                let item = CollectionItem { id: f.core.source_id.clone(), role: flow_items[i].1.clone() };
                out.push(item);
                assert(item_views(out@) =~= item_views(before).push((f.core.source_id@, flow_items@[i as int].1@)));
            },
            None => {},
        }
        i = i + 1;
    }
    assert(pair_views(flow_items@).take(i as int) =~= pair_views(flow_items@));
    out
}

} // verus!
