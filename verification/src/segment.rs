//! Flow segments: what a query selects, and the download URLs a listing shows.
use vstd::prelude::*;
use crate::error::DeletionRequest;
use crate::flow::text_member;
use crate::json::{items_seq, json_bool, json_get, Items, Json, Members};
use crate::tags::string_views;
use crate::timerange::{
    at, lemma_intersect_contains, lemma_shared_point_overlaps, range_contains, spec_intersect, spec_overlaps,
    spec_parse_timerange, spec_start_before_end, spec_timerange_error, well_formed, Bound, TimeRange,
};
use crate::webhook::listed;

verus! {

/// A stored segment: its parsed time range, its object, and its document.
pub struct StoredSegment {
    pub timerange: TimeRange,
    pub object_id: String,
    pub document: Json,
}

/// A segment that failed validation during a bulk post.
pub struct FailedSegment {
    pub object_id: String,
    pub timerange: Option<String>,
    pub error: String,
}

/// Query parameters for listing and deleting segments.
pub struct SegmentQuery {
    pub timerange: Option<TimeRange>,
    pub object_id: Option<String>,
    pub reverse_order: bool,
    /// Only URLs of this presigned status (`None`: any).
    pub presigned: Option<bool>,
    /// Only URLs with one of these labels (`None`: any; empty: none).
    pub accept_get_urls: Option<Vec<String>>,
    /// Only URLs of these storage backends (`None`: any).
    pub accept_storage_ids: Option<Vec<String>>,
    /// Keep each segment's `object_timerange`.
    pub include_object_timerange: bool,
    /// Show the full storage metadata of URLs.
    pub verbose_storage: bool,
}

impl Default for SegmentQuery {
    fn default() -> (r: Self)
        ensures
            r.timerange is None && r.object_id is None && !r.reverse_order && r.presigned is None
                && r.accept_get_urls is None && r.accept_storage_ids is None && !r.include_object_timerange
                && !r.verbose_storage,
    {
        SegmentQuery {
            timerange: None,
            object_id: None,
            reverse_order: false,
            presigned: None,
            accept_get_urls: None,
            accept_storage_ids: None,
            include_object_timerange: false,
            verbose_storage: false,
        }
    }
}

/// Result of a segment post.
pub enum SegmentPostResult {
    /// Every segment was created.
    AllCreated,
    /// Some segments failed; the others were created.
    PartialFailure(Vec<FailedSegment>),
}

/// Result of a segment deletion.
pub enum SegmentDeleteResult {
    Deleted,
    Async(Box<DeletionRequest>),
}

/// A flow's segments as a listing shows them: the documents, the object of
/// each, the bounding union of their ranges, and whether the store's own
/// download URL is to be added to each.
pub struct SegmentListing {
    pub documents: Vec<Json>,
    pub object_ids: Vec<String>,
    pub timerange: TimeRange,
    pub include_controlled_url: bool,
}

/// A request to allocate media objects.
pub struct StorageRequest {
    pub limit: Option<u64>,
    pub object_ids: Option<Vec<String>>,
    pub storage_id: Option<String>,
}

/// An allocated media object with the URL to upload it to.
pub struct AllocatedObject {
    pub object_id: String,
    pub put_url: String,
    pub content_type: Option<String>,
}

/// Whether a segment is listed by a query: the query's range, unless it
/// is eternity, overlaps the segment's (never matches nothing), and the
/// object is the one asked for.
pub open spec fn query_selects(tr: TimeRange, object_id: Seq<char>, q: SegmentQuery) -> bool {
    &&& (q.timerange matches Some(qt) ==> qt != TimeRange::Never && (qt == (TimeRange::Range {
        start: None,
        end: None,
    }) || spec_overlaps(tr, qt)))
    &&& (q.object_id matches Some(o) ==> object_id == o@)
}

/// Whether a deletion query removes a segment: the query's range covers the
/// segment's, and the object is the one asked for.
pub open spec fn query_removes(tr: TimeRange, object_id: Seq<char>, q: SegmentQuery) -> bool {
    &&& (q.timerange matches Some(qt) ==> spec_intersect(qt, tr) == tr)
    &&& (q.object_id matches Some(o) ==> object_id == o@)
}

/// A start and an end bound that are both exclusive and one nanosecond
/// apart: they meet, yet no nanosecond lies between them.
pub open spec fn hairline(s: Option<Bound>, e: Option<Bound>) -> bool {
    &&& s matches Some(x)
    &&& e matches Some(y)
    &&& !s->0.inclusive
    &&& !e->0.inclusive
    &&& at(e->0) == at(s->0) + 1
}

/// No start of either range sits a hairline before an end of either.
pub open spec fn no_hairlines(a: TimeRange, b: TimeRange) -> bool {
    match (a, b) {
        (TimeRange::Range { start: s1, end: e1 }, TimeRange::Range { start: s2, end: e2 }) => {
            &&& !hairline(s1, e1)
            &&& !hairline(s2, e2)
            &&& !hairline(s1, e2)
            &&& !hairline(s2, e1)
        },
        _ => true,
    }
}

/// The first nanosecond a start bound lets in.
spec fn first_in(s: Bound) -> int {
    if s.inclusive { at(s) } else { at(s) + 1 }
}

/// The last nanosecond an end bound lets in.
spec fn last_in(e: Bound) -> int {
    if e.inclusive { at(e) } else { at(e) - 1 }
}

/// A start before an end, not a hairline apart, leaves a nanosecond between them.
proof fn lemma_first_before_last(s: Option<Bound>, e: Option<Bound>)
    requires
        spec_start_before_end(s, e),
        !hairline(s, e),
        s is Some,
        e is Some,
    ensures
        first_in(s->0) <= last_in(e->0),
{
}

/// Two overlapping ranges that are not never share a nanosecond, unless
/// some start and end are exclusive and one nanosecond apart (then the
/// bounds meet though no nanosecond lies between them).
pub proof fn lemma_overlap_has_point(a: TimeRange, b: TimeRange)
    requires
        a is Range,
        b is Range,
        well_formed(a),
        well_formed(b),
        spec_overlaps(a, b),
        no_hairlines(a, b),
    ensures
        exists|t: int| range_contains(a, t) && range_contains(b, t),
{
    let s1 = a->start;
    let e1 = a->end;
    let s2 = b->start;
    let e2 = b->end;
    let lo: Option<int> = match (s1, s2) {
        (None, None) => None,
        (Some(x), None) => Some(first_in(x)),
        (None, Some(y)) => Some(first_in(y)),
        (Some(x), Some(y)) => Some(if first_in(x) < first_in(y) { first_in(y) } else { first_in(x) }),
    };
    let hi: Option<int> = match (e1, e2) {
        (None, None) => None,
        (Some(x), None) => Some(last_in(x)),
        (None, Some(y)) => Some(last_in(y)),
        (Some(x), Some(y)) => Some(if last_in(x) < last_in(y) { last_in(x) } else { last_in(y) }),
    };
    if s1 is Some && e1 is Some {
        lemma_first_before_last(s1, e1);
    }
    if s2 is Some && e2 is Some {
        lemma_first_before_last(s2, e2);
    }
    if s1 is Some && e2 is Some {
        lemma_first_before_last(s1, e2);
    }
    if s2 is Some && e1 is Some {
        lemma_first_before_last(s2, e1);
    }
    let t: int = match lo {
        Some(l) => l,
        None => match hi {
            Some(h) => h,
            None => 0,
        },
    };
    assert(range_contains(a, t) && range_contains(b, t));
}


/// A segment is among those a query selects exactly when it is one of the
/// flow's segments and the query selects it.
proof fn lemma_selected_contains(s: Seq<StoredSegment>, q: SegmentQuery, x: StoredSegment)
    ensures
        selected(s, q).contains(x) <==> (s.contains(x) && query_selects(x.timerange, x.object_id@, q)),
    decreases s.len(),
{
    if s.len() > 0 {
        let t = s.drop_last();
        lemma_selected_contains(t, q, x);
        assert(s =~= t.push(s.last()));
        if s.contains(x) && x != s.last() {
            let i = choose|i: int| 0 <= i < s.len() && s[i] == x;
            assert(t[i] == x);
        }
        if t.contains(x) {
            let i = choose|i: int| 0 <= i < t.len() && t[i] == x;
            assert(s[i] == x);
        }
        if query_selects(s.last().timerange, s.last().object_id@, q) {
            let r = selected(t, q);
            if r.contains(x) {
                let i = choose|i: int| 0 <= i < r.len() && r[i] == x;
                assert(r.push(s.last())[i] == x);
            }
            if r.push(s.last()).contains(x) && x != s.last() {
                let i = choose|i: int| 0 <= i < r.len() + 1 && r.push(s.last())[i] == x;
                assert(r[i] == x);
            }
            assert(r.push(s.last())[r.len() as int] == s.last());
        }
        assert(s[s.len() - 1] == s.last());
    }
}

/// A segment is among those a deletion query keeps exactly when it is one
/// of the flow's segments and the query does not remove it.
proof fn lemma_kept_contains(s: Seq<StoredSegment>, q: SegmentQuery, x: StoredSegment)
    ensures
        kept_after_delete(s, q).contains(x) <==> (s.contains(x) && !query_removes(x.timerange, x.object_id@, q)),
    decreases s.len(),
{
    if s.len() > 0 {
        let t = s.drop_last();
        lemma_kept_contains(t, q, x);
        assert(s =~= t.push(s.last()));
        if s.contains(x) && x != s.last() {
            let i = choose|i: int| 0 <= i < s.len() && s[i] == x;
            assert(t[i] == x);
        }
        if t.contains(x) {
            let i = choose|i: int| 0 <= i < t.len() && t[i] == x;
            assert(s[i] == x);
        }
        if !query_removes(s.last().timerange, s.last().object_id@, q) {
            let r = kept_after_delete(t, q);
            if r.contains(x) {
                let i = choose|i: int| 0 <= i < r.len() && r[i] == x;
                assert(r.push(s.last())[i] == x);
            }
            if r.push(s.last()).contains(x) && x != s.last() {
                let i = choose|i: int| 0 <= i < r.len() + 1 && r.push(s.last())[i] == x;
                assert(r[i] == x);
            }
            assert(r.push(s.last())[r.len() as int] == s.last());
        }
        assert(s[s.len() - 1] == s.last());
    }
}

/// A listing by time range lists every segment of the flow that shares a
/// nanosecond with the range (and is of the object asked for, if any):
/// a segment that overlaps the range only in part is listed.
pub proof fn law_listing_lists_overlapping(segs: Seq<StoredSegment>, q: SegmentQuery, seg: StoredSegment, t: int)
    requires
        segs.contains(seg),
        q.timerange matches Some(qt) && range_contains(qt, t),
        range_contains(seg.timerange, t),
        q.object_id matches Some(o) ==> seg.object_id@ == o@,
    ensures
        selected(segs, q).contains(seg),
{
    lemma_selected_contains(segs, q, seg);
    let qt = q.timerange->0;
    lemma_shared_point_overlaps(seg.timerange, qt, t);
}

/// A listing by time range lists only segments that share a nanosecond
/// with the range, for a segment that is not never and ranges that are
/// well formed with no exclusive start and end a single nanosecond apart.
pub proof fn law_listing_lists_only_overlapping(segs: Seq<StoredSegment>, q: SegmentQuery, seg: StoredSegment)
    requires
        selected(segs, q).contains(seg),
        q.timerange is Some,
        seg.timerange != TimeRange::Never,
        well_formed(seg.timerange),
        well_formed(q.timerange->0),
        no_hairlines(seg.timerange, q.timerange->0),
    ensures
        segs.contains(seg),
        exists|t: int| range_contains(seg.timerange, t) && range_contains(q.timerange->0, t),
{
    lemma_selected_contains(segs, q, seg);
    let qt = q.timerange->0;
    let e = TimeRange::Range { start: None, end: None };
    if qt == e {
        assert(spec_overlaps(seg.timerange, seg.timerange));
        lemma_overlap_has_point(seg.timerange, seg.timerange);
        let t = choose|t: int| range_contains(seg.timerange, t) && range_contains(seg.timerange, t);
        assert(range_contains(qt, t));
    } else {
        lemma_overlap_has_point(seg.timerange, qt);
    }
}

/// A deletion by time range removes a segment only when every nanosecond
/// of the segment lies in the range: a segment with a nanosecond outside
/// the range is kept.
pub proof fn law_delete_removes_only_covered(segs: Seq<StoredSegment>, q: SegmentQuery, seg: StoredSegment, t: int)
    requires
        segs.contains(seg),
        q.timerange is Some,
        !kept_after_delete(segs, q).contains(seg),
        range_contains(seg.timerange, t),
    ensures
        range_contains(q.timerange->0, t),
{
    lemma_kept_contains(segs, q, seg);
    lemma_intersect_contains(q.timerange->0, seg.timerange, t);
}

/// A range `[a_b)` with `a` before `b`.
pub open spec fn half_open(tr: TimeRange) -> bool {
    &&& tr matches TimeRange::Range { start: Some(s), end: Some(e) }
    &&& tr->start->0.inclusive
    &&& !tr->end->0.inclusive
    &&& at(tr->start->0) < at(tr->end->0)
}

/// A deletion by a `[c_d)` range removes every `[a_b)` segment (of the
/// object asked for, if any) whose nanoseconds all lie in it.
pub proof fn law_delete_removes_covered(segs: Seq<StoredSegment>, q: SegmentQuery, seg: StoredSegment)
    requires
        segs.contains(seg),
        q.timerange matches Some(qt) && half_open(qt),
        half_open(seg.timerange),
        forall|t: int| range_contains(seg.timerange, t) ==> range_contains(q.timerange->0, t),
        q.object_id matches Some(o) ==> seg.object_id@ == o@,
    ensures
        !kept_after_delete(segs, q).contains(seg),
{
    lemma_kept_contains(segs, q, seg);
    let qt = q.timerange->0;
    let tr = seg.timerange;
    let a = at(tr->start->0);
    let b = at(tr->end->0);
    assert(range_contains(tr, a));
    assert(range_contains(qt, a));
    assert(range_contains(tr, b - 1));
    assert(range_contains(qt, b - 1));
    assert(spec_intersect(qt, tr) == tr);
}

/// Whether a segment matches a listing query.
pub fn matches_query(seg: &StoredSegment, query: &SegmentQuery) -> (r: bool)
    ensures
        r == query_selects(seg.timerange, seg.object_id@, *query),
{
    if let Some(query_tr) = &query.timerange {
        if query_tr.is_never() {
            return false;
        }
        if !query_tr.is_eternity() && !seg.timerange.overlaps(query_tr) {
            return false;
        }
    }
    if let Some(oid) = &query.object_id {
        if !crate::text::str_eq(seg.object_id.as_str(), oid.as_str()) {
            return false;
        }
    }
    true
}

/// Whether a deletion query removes a segment.
pub fn delete_matches(seg: &StoredSegment, query: &SegmentQuery) -> (r: bool)
    ensures
        r == query_removes(seg.timerange, seg.object_id@, *query),
{
    if let Some(query_tr) = &query.timerange {
        if !query_tr.covers(&seg.timerange) {
            return false;
        }
    }
    if let Some(oid) = &query.object_id {
        if !crate::text::str_eq(seg.object_id.as_str(), oid.as_str()) {
            return false;
        }
    }
    true
}

/// The key segments are ordered by: the start in nanoseconds, an unbounded
/// start first, an empty range last.
pub open spec fn start_key(tr: TimeRange) -> int {
    match tr {
        TimeRange::Never => i128::MAX as int,
        TimeRange::Range { start: Some(b), .. } => b.timestamp.nanos as int,
        TimeRange::Range { start: None, .. } => i128::MIN as int,
    }
}

pub fn segment_start_nanos(tr: &TimeRange) -> (r: i128)
    ensures
        r == start_key(*tr),
{
    match tr {
        TimeRange::Never => i128::MAX,
        TimeRange::Range { start: Some(b), .. } => b.timestamp.nanos,
        TimeRange::Range { start: None, .. } => i128::MIN,
    }
}

/// An uncontrolled URL a listing keeps: marked uncontrolled, and labelled
/// with an accepted label when labels are asked for.
pub open spec fn url_kept(u: Json, accept: Option<Vec<String>>) -> bool {
    &&& json_bool(json_get(u, "controlled"@)) == Some(false)
    &&& (accept matches Some(labels) ==> (text_member(u, "label"@) matches Some(l) && string_views(
        labels@,
    ).contains(l)))
}

/// The URLs of a list that a listing keeps, in order.
pub open spec fn kept_urls(l: Items, accept: Option<Vec<String>>) -> Seq<Json>
    decreases l,
{
    match l {
        Items::Nil => Seq::empty(),
        Items::Cons(u, rest) => if url_kept(u, accept) {
            seq![u] + kept_urls(*rest, accept)
        } else {
            kept_urls(*rest, accept)
        },
    }
}

/// The uncontrolled URLs a listing shows of a segment's `get_urls`: none
/// when only presigned URLs are asked for.
pub open spec fn shown_uncontrolled(get_urls: Option<Json>, presigned: Option<bool>, accept: Option<Vec<String>>) -> Seq<Json> {
    if presigned == Some(true) {
        Seq::empty()
    } else {
        match get_urls {
            Some(Json::Array(l)) => kept_urls(*l, accept),
            _ => Seq::empty(),
        }
    }
}

fn kept_items(l: &Items, accept: &Option<Vec<String>>) -> (r: Items)
    ensures
        items_seq(r) == kept_urls(*l, *accept),
    decreases l,
{
    match l {
        Items::Nil => Items::Nil,
        Items::Cons(u, rest) => {
            let tail = kept_items(rest, accept);
            let controlled_false = u.get_bool("controlled") == Some(false);
            let label_ok = match accept {
                None => true,
                Some(labels) => match u.get_str("label") {
                    Some(l) => listed(labels.as_slice(), l.as_str()),
                    None => false,
                },
            };
            if controlled_false && label_ok {
                Items::Cons(u.copy(), Box::new(tail))
            } else {
                tail
            }
        },
    }
}

/// Filter uncontrolled get_urls from a segment's document.
pub fn filter_uncontrolled_urls(get_urls: Option<&Json>, presigned: Option<bool>, accept_get_urls: &Option<Vec<String>>) -> (r: Items)
    ensures
        items_seq(r) == shown_uncontrolled(
            match get_urls {
                Some(j) => Some(*j),
                None => None,
            },
            presigned,
            *accept_get_urls,
        ),
{
    if presigned == Some(true) {
        return Items::Nil;
    }
    match get_urls {
        Some(Json::Array(l)) => kept_items(l, accept_get_urls),
        _ => Items::Nil,
    }
}

/// Whether the store's own URL passes a query's filters: presigned status,
/// label and storage id. No label list lets every label through, an empty
/// one none; no storage-id list, or an empty one, lets every id through.
pub open spec fn controlled_url_shown(
    presigned: Option<bool>,
    url_is_presigned: bool,
    accept_get_urls: Option<Vec<String>>,
    accept_storage_ids: Option<Vec<String>>,
    backend_storage_id: Seq<char>,
    backend_label: Seq<char>,
) -> bool {
    &&& (presigned matches Some(p) ==> p == url_is_presigned)
    &&& (accept_get_urls matches Some(labels) ==> string_views(labels@).contains(backend_label))
    &&& (accept_storage_ids matches Some(ids) ==> (ids@.len() > 0 ==> string_views(ids@).contains(backend_storage_id)))
}

/// Check if the controlled URL should be included based on query filters.
pub fn should_include_controlled_url(
    presigned: Option<bool>,
    url_is_presigned: bool,
    accept_get_urls: &Option<Vec<String>>,
    accept_storage_ids: &Option<Vec<String>>,
    backend_storage_id: &str,
    backend_label: &str,
) -> (r: bool)
    ensures
        r == controlled_url_shown(
            presigned,
            url_is_presigned,
            *accept_get_urls,
            *accept_storage_ids,
            backend_storage_id@,
            backend_label@,
        ),
{
    if let Some(want) = presigned {
        if want != url_is_presigned {
            return false;
        }
    }
    let label_ok = match accept_get_urls {
        Some(labels) => listed(labels.as_slice(), backend_label),
        None => true,
    };
    let id_ok = match accept_storage_ids {
        Some(ids) => ids.len() == 0 || listed(ids.as_slice(), backend_storage_id),
        None => true,
    };
    label_ok && id_ok
}

fn str_member(name: &str, value: &str, rest: Members) -> (r: Members)
    ensures
        r == Members::Cons(r->Cons_0, Json::Str(r->Cons_1->Str_0), Box::new(rest)),
        r->Cons_0@ == name@,
        r->Cons_1->Str_0@ == value@,
{
    Members::Cons(name.to_owned(), Json::Str(value.to_owned()), Box::new(rest))
}

/// `r` is the store's own download URL `url` as a `get_urls` entry: the URL,
/// marked presigned, with the backend's label; with `verbose`, also marked
/// controlled and with the storage id; no other member.
pub open spec fn controlled_entry(r: Json, url: Seq<char>, label: Seq<char>, storage_id: Seq<char>, verbose: bool) -> bool {
    &&& crate::flow::text_member(r, "url"@) == Some(url)
    &&& crate::flow::text_member(r, "label"@) == Some(label)
    &&& json_bool(json_get(r, "presigned"@)) == Some(true)
    &&& (verbose ==> json_bool(json_get(r, "controlled"@)) == Some(true))
    &&& (verbose ==> crate::flow::text_member(r, "storage_id"@) == Some(storage_id))
    &&& (!verbose ==> json_get(r, "controlled"@) is None && json_get(r, "storage_id"@) is None)
    &&& crate::json::object_names(r) == (if verbose {
        seq!["url"@, "presigned"@, "label"@, "controlled"@, "storage_id"@]
    } else {
        seq!["url"@, "presigned"@, "label"@]
    })
}

/// The store's own download URL as a `get_urls` entry: the URL, marked
/// presigned, with the backend's label; with `verbose`, also marked
/// controlled and with the storage id.
pub fn build_controlled_url(url: &str, label: &str, storage_id: &str, verbose: bool) -> (r: Json)
    ensures
        controlled_entry(r, url@, label@, storage_id@, verbose),
        crate::flow::text_member(r, "url"@) == Some(url@),
        crate::flow::text_member(r, "label"@) == Some(label@),
        json_bool(json_get(r, "presigned"@)) == Some(true),
        verbose ==> json_bool(json_get(r, "controlled"@)) == Some(true),
        verbose ==> crate::flow::text_member(r, "storage_id"@) == Some(storage_id@),
        !verbose ==> json_get(r, "controlled"@) is None && json_get(r, "storage_id"@) is None,
{
    proof {
        reveal_strlit("url");
        reveal_strlit("presigned");
        reveal_strlit("label");
        reveal_strlit("controlled");
        reveal_strlit("storage_id");
        reveal_with_fuel(crate::json::member, 6);
    }
    let tail = if verbose {
        let m = str_member("storage_id", storage_id, Members::Nil);
        Members::Cons("controlled".to_owned(), Json::Bool(true), Box::new(m))
    } else {
        Members::Nil
    };
    let m1 = str_member("label", label, tail);
    assert(crate::json::member(m1, "label"@) == Some(Json::Str(m1->Cons_1->Str_0)));
    let p = "presigned".to_owned();
    assert("label"@.len() == 5);
    assert("presigned"@.len() == 9);
    assert(p@ != "label"@);
    let m2 = Members::Cons(p, Json::Bool(true), Box::new(m1));
    assert(crate::json::member(m2, "label"@) == Some(Json::Str(m1->Cons_1->Str_0)));
    let m3 = str_member("url", url, m2);
    assert("url"@.len() == 3);
    assert("storage_id"@.len() == 10);
    assert("controlled"@.len() == 10);
    assert("storage_id"@[0] == 's');
    assert("controlled"@[0] == 'c');
    assert("controlled"@ != "storage_id"@);
    assert("url"@ != "label"@);
    assert("url"@ != "presigned"@);
    assert(crate::json::member(m3, "label"@) == Some(Json::Str(m1->Cons_1->Str_0)));
    proof {
        assert(crate::json::member_names(Members::Nil) =~= Seq::<Seq<char>>::empty());
        if verbose {
            let m = tail->Cons_2;
            assert(crate::json::member_names(*m) =~= seq!["storage_id"@]);
            assert(crate::json::member_names(tail) =~= seq!["controlled"@, "storage_id"@]);
        } else {
            assert(crate::json::member_names(tail) =~= Seq::<Seq<char>>::empty());
        }
        assert(crate::json::member_names(m1) == seq!["label"@] + crate::json::member_names(tail));
        assert(crate::json::member_names(m2) == seq!["presigned"@] + crate::json::member_names(m1));
        assert(crate::json::member_names(m3) == seq!["url"@] + crate::json::member_names(m2));
        if verbose {
            assert(crate::json::member_names(m3) =~= seq!["url"@, "presigned"@, "label"@, "controlled"@, "storage_id"@]);
        } else {
            assert(crate::json::member_names(m3) =~= seq!["url"@, "presigned"@, "label"@]);
        }
    }
    Json::Object(Box::new(m3))
}

/// What a bulk post makes of one segment document, given the ranges taken
/// already: whether it is accepted, its object id, its range text, and the
/// message of its failure (none when accepted).
pub open spec fn seg_verdict(doc: Json, prior: Seq<TimeRange>) -> (bool, Seq<char>, Option<Seq<char>>, Option<Seq<char>>) {
    if !(doc is Object) {
        (false, Seq::empty(), None, Some("Segment must be a JSON object"@))
    } else {
        match text_member(doc, "object_id"@) {
            None => (false, Seq::empty(), None, Some("Missing required field: object_id"@)),
            Some(oid) => match text_member(doc, "timerange"@) {
                None => (false, oid, None, Some("Missing required field: timerange"@)),
                Some(t) => match spec_parse_timerange(t) {
                    None => (false, oid, Some(t), Some(invalid_timerange_message(t))),
                    Some(tr) => if tr == TimeRange::Never {
                        (false, oid, Some(t), Some("Timerange must not be empty"@))
                    } else if exists|i: int| 0 <= i < prior.len() && spec_overlaps(#[trigger] prior[i], tr) {
                        (false, oid, Some(t), Some("Segment timerange overlaps with existing segment"@))
                    } else {
                        (true, oid, Some(t), None)
                    },
                },
            },
        }
    }
}

/// The range a segment document names, when it parses.
pub open spec fn doc_range(doc: Json) -> TimeRange {
    spec_parse_timerange(text_member(doc, "timerange"@)->0)->0
}

/// The ranges taken after a bulk post of `docs` onto `existing`: the
/// existing ones, then each accepted segment's.
pub open spec fn batch_ranges(existing: Seq<TimeRange>, docs: Seq<Json>) -> Seq<TimeRange>
    decreases docs.len(),
{
    if docs.len() == 0 {
        existing
    } else {
        let p = batch_ranges(existing, docs.drop_last());
        if seg_verdict(docs.last(), p).0 {
            p.push(doc_range(docs.last()))
        } else {
            p
        }
    }
}

/// The documents a bulk post accepts, in order.
pub open spec fn batch_accepted(existing: Seq<TimeRange>, docs: Seq<Json>) -> Seq<Json>
    decreases docs.len(),
{
    if docs.len() == 0 {
        Seq::empty()
    } else {
        let a = batch_accepted(existing, docs.drop_last());
        if seg_verdict(docs.last(), batch_ranges(existing, docs.drop_last())).0 {
            a.push(docs.last())
        } else {
            a
        }
    }
}

/// The failures of a bulk post, in order: object id, range text, message.
pub open spec fn batch_failed(existing: Seq<TimeRange>, docs: Seq<Json>) -> Seq<(Seq<char>, Option<Seq<char>>, Option<Seq<char>>)>
    decreases docs.len(),
{
    if docs.len() == 0 {
        Seq::empty()
    } else {
        let f = batch_failed(existing, docs.drop_last());
        let v = seg_verdict(docs.last(), batch_ranges(existing, docs.drop_last()));
        if v.0 {
            f
        } else {
            f.push((v.1, v.2, v.3))
        }
    }
}

/// The failure message for a range text that does not parse: the parser's
/// error as shown, after "Invalid timerange: ".
pub open spec fn invalid_timerange_message(t: Seq<char>) -> Seq<char> {
    "Invalid timerange: "@ + ("invalid timerange: "@ + spec_timerange_error(t))
}

/// A failed segment agrees with what a bulk post makes of its document:
/// the same object and range text, and the same message.
pub open spec fn failure_matches(f: FailedSegment, v: (Seq<char>, Option<Seq<char>>, Option<Seq<char>>)) -> bool {
    &&& f.object_id@ == v.0
    &&& crate::error::opt_str_view(f.timerange) == v.1
    &&& v.2 == Some(f.error@)
}

/// The ranges of stored segments.
pub open spec fn seg_ranges(s: Seq<StoredSegment>) -> Seq<TimeRange> {
    s.map_values(|x: StoredSegment| x.timerange)
}

fn fail(object_id: String, timerange: Option<String>, error: String) -> (r: FailedSegment)
    ensures
        r.object_id == object_id && r.timerange == timerange && r.error == error,
{
    FailedSegment { object_id, timerange, error }
}

fn overlaps_any(ranges: &Vec<TimeRange>, tr: &TimeRange) -> (r: bool)
    ensures
        r == exists|i: int| 0 <= i < ranges@.len() && spec_overlaps(#[trigger] ranges@[i], *tr),
{
    let mut i: usize = 0;
    while i < ranges.len()
        invariant
            i <= ranges@.len(),
            forall|j: int| 0 <= j < i ==> !spec_overlaps(#[trigger] ranges@[j], *tr),
        decreases ranges@.len() - i,
    {
        if ranges[i].overlaps(tr) {
            return true;
        }
        i = i + 1;
    }
    false
}

/// Checks the segment documents of a bulk post against the segments a flow
/// has and against each other: each either becomes a segment or fails.
pub fn check_segments(existing: &Vec<StoredSegment>, docs: Vec<Json>) -> (r: (Vec<StoredSegment>, Vec<FailedSegment>))
    ensures
        r.0@.len() == batch_accepted(seg_ranges(existing@), docs@).len(),
        forall|i: int| 0 <= i < r.0@.len() ==> (#[trigger] r.0@[i]).document == batch_accepted(
            seg_ranges(existing@),
            docs@,
        )[i] && r.0@[i].timerange == doc_range(r.0@[i].document) && Some(r.0@[i].object_id@) == text_member(
            r.0@[i].document,
            "object_id"@,
        ),
        seg_ranges(existing@) + seg_ranges(r.0@) == batch_ranges(seg_ranges(existing@), docs@),
        r.1@.len() == batch_failed(seg_ranges(existing@), docs@).len(),
        forall|i: int| 0 <= i < r.1@.len() ==> failure_matches(#[trigger] r.1@[i], batch_failed(seg_ranges(existing@), docs@)[i]),
{
    let ghost ex = seg_ranges(existing@);
    let mut ranges: Vec<TimeRange> = Vec::new();
    let mut k: usize = 0;
    while k < existing.len()
        invariant
            k <= existing@.len(),
            ranges@ == seg_ranges(existing@).take(k as int),
        decreases existing@.len() - k,
    {
        ranges.push(existing[k].timerange);
        k = k + 1;
        assert(ranges@ =~= seg_ranges(existing@).take(k as int));
    }
    assert(seg_ranges(existing@).take(k as int) =~= ex);
    let mut created: Vec<StoredSegment> = Vec::new();
    let mut failed: Vec<FailedSegment> = Vec::new();
    let mut docs = docs;
    let ghost all = docs@;
    let n = docs.len();
    let mut i: usize = 0;
    assert(all.take(0) =~= Seq::<Json>::empty());
    while i < n
        invariant
            n == all.len(),
            docs@ == all.subrange(i as int, n as int),
            i <= n,
            ranges@ == batch_ranges(ex, all.take(i as int)),
            ranges@ == ex + seg_ranges(created@),
            created@.len() == batch_accepted(ex, all.take(i as int)).len(),
            forall|j: int| 0 <= j < created@.len() ==> (#[trigger] created@[j]).document == batch_accepted(ex, all.take(i as int))[j]
                && created@[j].timerange == doc_range(created@[j].document)
                && Some(created@[j].object_id@) == text_member(created@[j].document, "object_id"@),
            failed@.len() == batch_failed(ex, all.take(i as int)).len(),
            forall|j: int| 0 <= j < failed@.len() ==> failure_matches(#[trigger] failed@[j], batch_failed(ex, all.take(i as int))[j]),
        decreases n - i,
    {
        let doc = docs.remove(0);
        assert(doc == all[i as int]);
        assert(docs@ =~= all.subrange(i + 1, n as int));
        let ghost t = all.take(i + 1);
        assert(t.drop_last() =~= all.take(i as int));
        assert(t.last() == doc);
        let ghost prior = ranges@;
        let ghost v = seg_verdict(doc, prior);
        let ghost cb = created@;
        let ghost fb = failed@;
        let outcome: Result<StoredSegment, FailedSegment> = self::judge(doc, &ranges);
        match outcome {
            Ok(seg) => {
                ranges.push(seg.timerange);
                created.push(seg);
                assert(seg_ranges(created@) =~= seg_ranges(cb).push(created@.last().timerange));
                assert(ranges@ =~= ex + seg_ranges(created@));
            },
            Err(f) => {
                failed.push(f);
            },
        }
        i = i + 1;
        proof {
            assert forall|j: int| 0 <= j < created@.len() implies (#[trigger] created@[j]).document == batch_accepted(ex, all.take(i as int))[j]
                && created@[j].timerange == doc_range(created@[j].document)
                && Some(created@[j].object_id@) == text_member(created@[j].document, "object_id"@) by {
                if j < cb.len() {
                    assert(created@[j] == cb[j]);
                }
            }
            assert forall|j: int| 0 <= j < failed@.len() implies failure_matches(#[trigger] failed@[j], batch_failed(ex, all.take(i as int))[j]) by {
                if j < fb.len() {
                    assert(failed@[j] == fb[j]);
                }
            }
        }
    }
    assert(all.take(n as int) =~= all);
    assert(seg_ranges(existing@) + seg_ranges(created@) == ranges@);
    (created, failed)
}

/// The verdict on one document, as a segment or a failure.
fn judge(doc: Json, ranges: &Vec<TimeRange>) -> (r: Result<StoredSegment, FailedSegment>)
    ensures
        seg_verdict(doc, ranges@).0 <==> r is Ok,
        r matches Ok(seg) ==> seg.document == doc && seg.timerange == doc_range(doc) && Some(seg.object_id@)
            == text_member(doc, "object_id"@),
        r matches Err(f) ==> failure_matches(f, (seg_verdict(doc, ranges@).1, seg_verdict(doc, ranges@).2, seg_verdict(doc, ranges@).3)),
{
    if !doc.is_object() {
        return Err(fail(String::new(), None, String::from_str("Segment must be a JSON object")));
    }
    let object_id = match doc.get_str("object_id") {
        Some(s) => s.clone(),
        None => {
            return Err(fail(String::new(), None, String::from_str("Missing required field: object_id")));
        },
    };
    let tr_text = match doc.get_str("timerange") {
        Some(s) => s.clone(),
        None => {
            return Err(fail(object_id, None, String::from_str("Missing required field: timerange")));
        },
    };
    let timerange = match TimeRange::parse(tr_text.as_str()) {
        Ok(tr) => tr,
        Err(e) => {
            let msg = String::from_str("Invalid timerange: ").concat(e.to_string().as_str());
            return Err(fail(object_id, Some(tr_text), msg));
        },
    };
    if timerange.is_never() {
        return Err(fail(object_id, Some(tr_text), String::from_str("Timerange must not be empty")));
    }
    if overlaps_any(ranges, &timerange) {
        return Err(fail(object_id, Some(tr_text), String::from_str("Segment timerange overlaps with existing segment")));
    }
    Ok(StoredSegment { timerange, object_id, document: doc })
}

/// `r` lists the elements of `s` in another order: position `k` of `r`
/// holds element `perm[k]` of `s`, and `inv` maps back.
pub open spec fn is_reordering(r: Seq<StoredSegment>, s: Seq<StoredSegment>, perm: Seq<int>, inv: Seq<int>) -> bool {
    &&& r.len() == s.len()
    &&& perm.len() == r.len()
    &&& inv.len() == s.len()
    &&& forall|k: int| 0 <= k < r.len() ==> 0 <= #[trigger] perm[k] < s.len() && r[k] == s[perm[k]] && inv[perm[k]] == k
    &&& forall|i: int| 0 <= i < s.len() ==> 0 <= #[trigger] inv[i] < r.len() && perm[inv[i]] == i
}

/// Segments in order of their start.
pub open spec fn sorted_by_start(r: Seq<StoredSegment>) -> bool {
    forall|a: int, b: int| 0 <= a < b < r.len() ==> start_key(r[a].timerange) <= start_key(r[b].timerange)
}

/// Sorts segments by their start, keeping the order of equal starts.
pub fn sort_by_start(v: Vec<StoredSegment>) -> (r: (Vec<StoredSegment>, Ghost<Seq<int>>, Ghost<Seq<int>>))
    ensures
        sorted_by_start(r.0@),
        is_reordering(r.0@, v@, r.1@, r.2@),
{
    let ghost src = v@;
    let n = v.len();
    let mut v = v;
    let mut out: Vec<StoredSegment> = Vec::new();
    let ghost mut perm: Seq<int> = Seq::empty();
    let ghost mut inv: Seq<int> = Seq::empty();
    let mut i: usize = 0;
    while i < n
        invariant
            n == src.len(),
            i <= n,
            v@ == src.subrange(i as int, n as int),
            sorted_by_start(out@),
            out@.len() == i,
            perm.len() == i,
            inv.len() == i,
            forall|k: int| 0 <= k < i ==> 0 <= #[trigger] perm[k] < i && out@[k] == src[perm[k]] && inv[perm[k]] == k,
            forall|x: int| 0 <= x < i ==> 0 <= #[trigger] inv[x] < i && perm[inv[x]] == x,
        decreases n - i,
    {
        let e = v.remove(0);
        assert(e == src[i as int]);
        assert(v@ =~= src.subrange(i + 1, n as int));
        let key = segment_start_nanos(&e.timerange);
        let mut p: usize = 0;
        while p < out.len() && segment_start_nanos(&out[p].timerange) <= key
            invariant
                p <= out@.len(),
                key == start_key(e.timerange),
                forall|q: int| 0 <= q < p ==> start_key(#[trigger] out@[q].timerange) <= key,
            decreases out@.len() - p,
        {
            p = p + 1;
        }
        let ghost before = out@;
        out.insert(p, e);
        proof {
            assert forall|a: int, b: int| 0 <= a < b < out@.len() implies start_key(out@[a].timerange) <= start_key(out@[b].timerange) by {
                if b < p {
                    assert(out@[a] == before[a] && out@[b] == before[b]);
                } else if b == p {
                    assert(out@[a] == before[a]);
                } else if a == p {
                    assert(out@[b] == before[b - 1]);
                    if p < before.len() {
                        assert(start_key(before[p as int].timerange) > key);
                        if b - 1 > p {
                            assert(start_key(before[p as int].timerange) <= start_key(before[b - 1].timerange));
                        }
                    }
                } else if a < p {
                    assert(out@[a] == before[a] && out@[b] == before[b - 1]);
                } else {
                    assert(out@[a] == before[a - 1] && out@[b] == before[b - 1]);
                }
            }
            let old_perm = perm;
            let old_inv = inv;
            perm = old_perm.insert(p as int, i as int);
            inv = old_inv.map_values(|x: int| if x >= p { x + 1 } else { x }).push(p as int);
            assert forall|k: int| 0 <= k < i + 1 implies 0 <= #[trigger] perm[k] < i + 1 && out@[k] == src[perm[k]] && inv[perm[k]] == k by {
                if k < p {
                    assert(perm[k] == old_perm[k]);
                    assert(out@[k] == before[k]);
                } else if k == p {
                } else {
                    assert(perm[k] == old_perm[k - 1]);
                    assert(out@[k] == before[k - 1]);
                }
            }
            assert forall|x: int| 0 <= x < i + 1 implies 0 <= #[trigger] inv[x] < i + 1 && perm[inv[x]] == x by {
                if x < i {
                    let y = old_inv[x];
                    if y >= p {
                        assert(inv[x] == y + 1);
                        assert(perm[y + 1] == old_perm[y]);
                    } else {
                        assert(inv[x] == y);
                        assert(perm[y] == old_perm[y]);
                    }
                }
            }
        }
        i = i + 1;
    }
    (out, Ghost(perm), Ghost(inv))
}

/// No two segments at different positions overlap.
pub open spec fn pairwise_disjoint(s: Seq<TimeRange>) -> bool {
    forall|a: int, b: int| 0 <= a < s.len() && 0 <= b < s.len() && a != b ==> !spec_overlaps(s[a], s[b])
}

/// The bounding union of ranges, folded from the left starting at never.
pub open spec fn union_of(s: Seq<TimeRange>) -> TimeRange
    decreases s.len(),
{
    if s.len() == 0 {
        TimeRange::Never
    } else {
        crate::timerange::spec_union(union_of(s.drop_last()), s.last())
    }
}

/// A bulk post keeps the ranges taken pairwise disjoint: each accepted
/// segment overlaps none taken before it.
pub proof fn lemma_batch_disjoint(existing: Seq<TimeRange>, docs: Seq<Json>)
    requires
        pairwise_disjoint(existing),
    ensures
        pairwise_disjoint(batch_ranges(existing, docs)),
        batch_ranges(existing, docs).len() >= existing.len(),
        batch_ranges(existing, docs).take(existing.len() as int) == existing,
    decreases docs.len(),
{
    if docs.len() > 0 {
        let p = batch_ranges(existing, docs.drop_last());
        lemma_batch_disjoint(existing, docs.drop_last());
        if seg_verdict(docs.last(), p).0 {
            let tr = doc_range(docs.last());
            let q = p.push(tr);
            assert forall|a: int, b: int| 0 <= a < q.len() && 0 <= b < q.len() && a != b implies !spec_overlaps(q[a], q[b]) by {
                if a == q.len() - 1 {
                    assert(!spec_overlaps(p[b], tr));
                    crate::timerange::lemma_overlaps_symmetric(p[b], tr);
                } else if b == q.len() - 1 {
                    assert(!spec_overlaps(p[a], tr));
                } else {
                    assert(q[a] == p[a] && q[b] == p[b]);
                }
            }
            assert(q.take(existing.len() as int) =~= p.take(existing.len() as int));
        }
    } else {
        assert(existing.take(existing.len() as int) =~= existing);
    }
}

/// Reordering segments keeps them pairwise disjoint.
pub proof fn lemma_reordering_disjoint(r: Seq<StoredSegment>, s: Seq<StoredSegment>, perm: Seq<int>, inv: Seq<int>)
    requires
        is_reordering(r, s, perm, inv),
        pairwise_disjoint(seg_ranges(s)),
    ensures
        pairwise_disjoint(seg_ranges(r)),
{
    assert forall|a: int, b: int| 0 <= a < seg_ranges(r).len() && 0 <= b < seg_ranges(r).len() && a != b implies !spec_overlaps(
        seg_ranges(r)[a],
        seg_ranges(r)[b],
    ) by {
        assert(perm[a] != perm[b]) by {
            if perm[a] == perm[b] {
                assert(inv[perm[a]] == a);
                assert(inv[perm[b]] == b);
            }
        }
        assert(seg_ranges(r)[a] == seg_ranges(s)[perm[a]]);
        assert(seg_ranges(r)[b] == seg_ranges(s)[perm[b]]);
    }
}

/// The segments a listing query selects, in order.
pub open spec fn selected(s: Seq<StoredSegment>, q: SegmentQuery) -> Seq<StoredSegment>
    decreases s.len(),
{
    if s.len() == 0 {
        s
    } else if query_selects(s.last().timerange, s.last().object_id@, q) {
        selected(s.drop_last(), q).push(s.last())
    } else {
        selected(s.drop_last(), q)
    }
}

/// How a listing shows a segment document: its `get_urls` holds the
/// uncontrolled URLs the query keeps, and `object_timerange` is dropped
/// unless asked for.
pub open spec fn shown_document(doc: Json, shown: Json, q: SegmentQuery) -> bool {
    &&& (doc is Object <==> shown is Object)
    &&& (doc is Object ==> {
        &&& json_get(shown, "get_urls"@) matches Some(Json::Array(l)) && items_seq(*l) == shown_uncontrolled(
            json_get(doc, "get_urls"@),
            q.presigned,
            q.accept_get_urls,
        )
        &&& (!q.include_object_timerange ==> json_get(shown, "object_timerange"@) is None)
        &&& (q.include_object_timerange ==> json_get(shown, "object_timerange"@) == json_get(doc, "object_timerange"@))
        &&& forall|k: Seq<char>| k != "get_urls"@ && k != "object_timerange"@ ==> #[trigger] json_get(shown, k) == json_get(doc, k)
    })
    &&& (!(doc is Object) ==> shown == doc)
}

/// A segment document as a listing shows it.
pub fn show_document(doc: &Json, q: &SegmentQuery) -> (r: Json)
    ensures
        shown_document(*doc, r, *q),
{
    let mut d = doc.copy();
    if !d.is_object() {
        return d;
    }
    let urls = filter_uncontrolled_urls(doc.get("get_urls"), q.presigned, &q.accept_get_urls);
    let ghost uv = urls;
    let ghost d0 = d;
    d.insert("get_urls".to_owned(), Json::Array(Box::new(urls)));
    let ghost d1 = d;
    if !q.include_object_timerange {
        d.remove("object_timerange");
    }
    proof {
        reveal_strlit("get_urls");
        reveal_strlit("object_timerange");
        assert("get_urls"@.len() == 8);
        assert("object_timerange"@.len() == 16);
        assert forall|k: Seq<char>| k != "get_urls"@ && k != "object_timerange"@ implies #[trigger] json_get(d, k) == json_get(*doc, k) by {
            crate::json::lemma_get_with(d0, d1->Object_0->Cons_0, d1->Object_0->Cons_1, k);
            crate::json::lemma_get_removed(d1, "object_timerange"@, k);
        }
        crate::json::lemma_get_with(d0, d1->Object_0->Cons_0, d1->Object_0->Cons_1, "get_urls"@);
        crate::json::lemma_get_removed(d1, "object_timerange"@, "get_urls"@);
        crate::json::lemma_get_with(d0, d1->Object_0->Cons_0, d1->Object_0->Cons_1, "object_timerange"@);
        crate::json::lemma_get_removed(d1, "object_timerange"@, "object_timerange"@);
    }
    d
}

/// A listed segment document with the store's own URL appended to its `get_urls`.
pub fn add_get_url(doc: Json, url: Json) -> (r: Json)
    ensures
        json_get(doc, "get_urls"@) matches Some(Json::Array(l)) ==> ((json_get(r, "get_urls"@) matches Some(Json::Array(l2))
            && items_seq(*l2) == items_seq(*l).push(url))
            && (forall|k: Seq<char>| k != "get_urls"@ ==> #[trigger] json_get(r, k) == json_get(doc, k))),
        !(json_get(doc, "get_urls"@) matches Some(Json::Array(_))) ==> r == doc,
{
    let items = match doc.get("get_urls") {
        Some(Json::Array(l)) => Some(append_item(l, url)),
        _ => None,
    };
    match items {
        Some(items) => {
            let mut d = doc;
            let ghost d0 = d;
            let ghost iv = items;
            d.insert("get_urls".to_owned(), Json::Array(Box::new(items)));
            proof {
                assert forall|k: Seq<char>| k != "get_urls"@ implies #[trigger] json_get(d, k) == json_get(d0, k) by {
                    crate::json::lemma_get_with(d0, d->Object_0->Cons_0, d->Object_0->Cons_1, k);
                }
                crate::json::lemma_get_with(d0, d->Object_0->Cons_0, d->Object_0->Cons_1, "get_urls"@);
            }
            d
        },
        None => doc,
    }
}

fn append_item(l: &Items, v: Json) -> (r: Items)
    ensures
        items_seq(r) == items_seq(*l).push(v),
    decreases l,
{
    match l {
        Items::Nil => {
            let r = Items::Cons(v, Box::new(Items::Nil));
            assert(items_seq(Items::Nil) =~= Seq::<Json>::empty());
            assert(items_seq(r) =~= seq![v]);
            r
        },
        Items::Cons(x, rest) => {
            let tail = append_item(rest, v);
            let r = Items::Cons(x.copy(), Box::new(tail));
            assert(items_seq(r) =~= items_seq(*l).push(v));
            r
        },
    }
}

/// The segments a deletion query keeps, in order.
pub open spec fn kept_after_delete(s: Seq<StoredSegment>, q: SegmentQuery) -> Seq<StoredSegment>
    decreases s.len(),
{
    if s.len() == 0 {
        s
    } else if query_removes(s.last().timerange, s.last().object_id@, q) {
        kept_after_delete(s.drop_last(), q)
    } else {
        kept_after_delete(s.drop_last(), q).push(s.last())
    }
}

/// Keeping some of a flow's segments, in order, keeps them pairwise disjoint.
pub proof fn lemma_kept_disjoint(s: Seq<StoredSegment>, q: SegmentQuery)
    requires
        pairwise_disjoint(seg_ranges(s)),
    ensures
        pairwise_disjoint(seg_ranges(kept_after_delete(s, q))),
        forall|i: int| 0 <= i < kept_after_delete(s, q).len() ==> exists|j: int| 0 <= j < s.len() && #[trigger] kept_after_delete(s, q)[i] == s[j],
    decreases s.len(),
{
    if s.len() > 0 {
        let t = s.drop_last();
        assert(pairwise_disjoint(seg_ranges(t))) by {
            assert forall|a: int, b: int| 0 <= a < seg_ranges(t).len() && 0 <= b < seg_ranges(t).len() && a != b implies !spec_overlaps(
                seg_ranges(t)[a],
                seg_ranges(t)[b],
            ) by {
                assert(seg_ranges(t)[a] == seg_ranges(s)[a]);
                assert(seg_ranges(t)[b] == seg_ranges(s)[b]);
            }
        }
        lemma_kept_disjoint(t, q);
        let k = kept_after_delete(t, q);
        assert forall|i: int| 0 <= i < k.len() implies exists|j: int| 0 <= j < s.len() && #[trigger] k[i] == s[j] by {
            let j = choose|j: int| 0 <= j < t.len() && k[i] == t[j];
            assert(s[j] == t[j]);
        }
        if !query_removes(s.last().timerange, s.last().object_id@, q) {
            let k2 = k.push(s.last());
            assert forall|i: int| 0 <= i < k2.len() implies exists|j: int| 0 <= j < s.len() && #[trigger] k2[i] == s[j] by {
                if i < k.len() {
                    let j = choose|j: int| 0 <= j < s.len() && k[i] == s[j];
                    assert(k2[i] == k[i]);
                } else {
                    assert(k2[i] == s[s.len() - 1]);
                }
            }
            assert forall|a: int, b: int| 0 <= a < seg_ranges(k2).len() && 0 <= b < seg_ranges(k2).len() && a != b implies !spec_overlaps(
                seg_ranges(k2)[a],
                seg_ranges(k2)[b],
            ) by {
                if a == k.len() || b == k.len() {
                    let o = if a == k.len() { b } else { a };
                    let j = choose|j: int| 0 <= j < t.len() && k[o] == t[j];
                    assert(seg_ranges(s)[j] == k[o].timerange);
                    assert(seg_ranges(s)[s.len() - 1] == s.last().timerange);
                    assert(!spec_overlaps(seg_ranges(s)[j], seg_ranges(s)[s.len() - 1]));
                    assert(!spec_overlaps(seg_ranges(s)[s.len() - 1], seg_ranges(s)[j]));
                } else {
                    assert(seg_ranges(k2)[a] == seg_ranges(k)[a]);
                    assert(seg_ranges(k2)[b] == seg_ranges(k)[b]);
                }
            }
        }
    }
}

} // verus!
