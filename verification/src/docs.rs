//! Tags read from and written to JSON documents.
use vstd::prelude::*;
use crate::json::{Items, Json, Members, member};
use crate::tags::{string_views, tag_strings, TagValue, Tags};

verus! {

/// The strings of an array whose elements are all strings.
pub open spec fn items_strings(l: Items) -> Option<Seq<Seq<char>>>
    decreases l,
{
    match l {
        Items::Nil => Some(Seq::empty()),
        Items::Cons(v, rest) => match (v, items_strings(*rest)) {
            (Json::Str(s), Some(r)) => Some(seq![s@] + r),
            _ => None,
        },
    }
}

/// The strings a tag value written as JSON holds: a string, or an array of strings.
pub open spec fn json_tag_strings(j: Json) -> Option<Seq<Seq<char>>> {
    match j {
        Json::Str(s) => Some(seq![s@]),
        Json::Array(items) => items_strings(*items),
        _ => None,
    }
}

/// Every member of the object is a tag value.
pub open spec fn members_are_tags(m: Members) -> bool
    decreases m,
{
    match m {
        Members::Nil => true,
        Members::Cons(_, v, rest) => json_tag_strings(v) is Some && members_are_tags(*rest),
    }
}

/// `t` holds exactly the tags written in the members `m`.
pub open spec fn tags_read_from(t: Map<Seq<char>, TagValue>, m: Members) -> bool {
    forall|k: Seq<char>|
        (#[trigger] t.contains_key(k) <==> member(m, k) is Some) && (t.contains_key(k) ==> Some(
            tag_strings(t[k]),
        ) == json_tag_strings(member(m, k)->0) && (t[k] is Single <==> member(m, k)->0 is Str))
}

/// Every element of a string array, or `None` when an element is not a string.
fn strings_of_items(l: &Items) -> (r: Option<Vec<String>>)
    ensures
        match r {
            Some(v) => items_strings(*l) == Some(string_views(v@)),
            None => items_strings(*l) is None,
        },
    decreases l,
{
    match l {
        Items::Nil => {
            let v: Vec<String> = Vec::new();
            assert(string_views(v@) =~= Seq::<Seq<char>>::empty());
            Some(v)
        },
        Items::Cons(Json::Str(s), rest) => match strings_of_items(rest) {
            Some(tail) => {
                let mut v: Vec<String> = Vec::new();
                v.push(s.clone());
                let mut i: usize = 0;
                while i < tail.len()
                    invariant
                        i <= tail@.len(),
                        v@.len() == i + 1,
                        v@[0]@ == s@,
                        forall|j: int| 0 <= j < i ==> #[trigger] v@[j + 1]@ == tail@[j]@,
                    decreases tail@.len() - i,
                {
                    v.push(tail[i].clone());
                    i = i + 1;
                }
                assert(string_views(v@) =~= seq![s@] + string_views(tail@)) by {
                    assert forall|j: int| 0 <= j < v@.len() implies string_views(v@)[j] == (seq![s@]
                        + string_views(tail@))[j] by {
                        if j > 0 {
                            assert(v@[(j - 1) + 1]@ == tail@[j - 1]@);
                        }
                    }
                }
                Some(v)
            },
            None => None,
        },
        Items::Cons(_, _) => None,
    }
}

/// A tag value written as JSON.
pub fn tag_value_of_json(j: &Json) -> (r: Option<TagValue>)
    ensures
        match r {
            Some(t) => json_tag_strings(*j) == Some(tag_strings(t)) && (t is Single <==> *j is Str),
            None => json_tag_strings(*j) is None,
        },
{
    match j {
        Json::Str(s) => Some(TagValue::Single(s.clone())),
        Json::Array(items) => match strings_of_items(items) {
            Some(v) => {
                assert(tag_strings(TagValue::Multiple(v)) =~= string_views(v@));
                Some(TagValue::Multiple(v))
            },
            None => None,
        },
        _ => None,
    }
}

fn tags_of_members(m: &Members) -> (r: Option<Tags>)
    ensures
        r is Some <==> members_are_tags(*m),
        (r matches Some(t) ==> tags_read_from(t@, *m)),
    decreases m,
{
    match m {
        Members::Nil => Some(Tags::new()),
        Members::Cons(name, v, rest) => {
            let tail = tags_of_members(rest);
            match tail {
                Some(t) => match tag_value_of_json(v) {
                    Some(tv) => {
                        let mut t = t;
                        let ghost before = t@;
                        t.insert(name.clone(), tv);
                        proof {
                            assert forall|k: Seq<char>|
                                (#[trigger] t@.contains_key(k) <==> member(*m, k) is Some) && (t@.contains_key(k)
                                    ==> Some(tag_strings(t@[k])) == json_tag_strings(member(*m, k)->0) && (
                                t@[k] is Single <==> member(*m, k)->0 is Str)) by {
                                if k != name@ {
                                    assert(before.contains_key(k) <==> member(**rest, k) is Some);
                                }
                            }
                        }
                        Some(t)
                    },
                    None => None,
                },
                None => None,
            }
        },
    }
}

/// Tags read from a JSON document: an object whose members are each a
/// string or an array of strings; `None` for anything else.
pub fn tags_from_json(j: &Json) -> (r: Option<Tags>)
    ensures
        r is Some <==> (*j matches Json::Object(m) && members_are_tags(*m)),
        (r matches Some(t) ==> (*j matches Json::Object(m) && tags_read_from(t@, *m))),
{
    match j {
        Json::Object(m) => tags_of_members(m),
        _ => None,
    }
}

/// The JSON form of a tag value.
pub fn tag_value_json(v: &TagValue) -> (r: Json)
    ensures
        json_tag_strings(r) == Some(tag_strings(*v)),
        r is Str <==> v is Single,
{
    match v {
        TagValue::Single(s) => Json::Str(s.clone()),
        TagValue::Multiple(vs) => {
            let mut items = Items::Nil;
            let mut i = vs.len();
            assert(string_views(vs@).skip(i as int) =~= Seq::<Seq<char>>::empty());
            while i > 0
                invariant
                    i <= vs@.len(),
                    items_strings(items) == Some(string_views(vs@).skip(i as int)),
                decreases i,
            {
                i = i - 1;
                items = Items::Cons(Json::Str(vs[i].clone()), Box::new(items));
                assert(seq![vs@[i as int]@] + string_views(vs@).skip(i + 1) =~= string_views(vs@).skip(i as int));
            }
            assert(string_views(vs@).skip(0) =~= tag_strings(*v));
            Json::Array(Box::new(items))
        },
    }
}

/// The JSON object of tags: each tag becomes a member holding its value.
pub fn tags_json(t: &Tags) -> (r: Json)
    ensures
        (r matches Json::Object(m) && members_are_tags(*m) && tags_read_from(t@, *m)),
{
    let mut m = Members::Nil;
    let n = t.len();
    let ghost names = t.names();
    let mut i: usize = 0;
    while i < n
        invariant
            i <= n,
            n == names.len(),
            names == t.names(),
            names.no_duplicates(),
            forall|k: Seq<char>| #[trigger] t@.contains_key(k) <==> names.contains(k),
            members_are_tags(m),
            forall|k: Seq<char>|
                (#[trigger] member(m, k) is Some <==> names.take(i as int).contains(k)) && (member(m, k) is Some ==> Some(
                    tag_strings(t@[k]),
                ) == json_tag_strings(member(m, k)->0) && (t@[k] is Single <==> member(m, k)->0 is Str)),
        decreases n - i,
    {
        let (k, v) = t.entry_at(i);
        let ghost before = m;
        let jv = tag_value_json(v);
        m = Members::Cons(k.clone(), jv, Box::new(m));
        proof {
            assert(names.take(i + 1) =~= names.take(i as int).push(k@));
            assert forall|q: Seq<char>|
                (#[trigger] member(m, q) is Some <==> names.take(i + 1).contains(q)) && (member(m, q) is Some ==> Some(
                    tag_strings(t@[q]),
                ) == json_tag_strings(member(m, q)->0) && (t@[q] is Single <==> member(m, q)->0 is Str)) by {
                if q != k@ {
                    assert(member(m, q) == member(before, q));
                    if names.take(i + 1).contains(q) {
                        let j = choose|j: int| 0 <= j < i + 1 && #[trigger] names.take(i + 1)[j] == q;
                        assert(names.take(i as int)[j] == q);
                    }
                    if names.take(i as int).contains(q) {
                        let j = choose|j: int| 0 <= j < i && #[trigger] names.take(i as int)[j] == q;
                        assert(names.take(i + 1)[j] == q);
                    }
                } else {
                    assert(names.take(i + 1)[i as int] == q);
                    assert(member(m, q) == Some(jv));
                }
            }
        }
        i = i + 1;
    }
    proof {
        assert(names.take(n as int) =~= names);
        assert forall|k: Seq<char>|
            (#[trigger] t@.contains_key(k) <==> member(m, k) is Some) && (t@.contains_key(k) ==> Some(
                tag_strings(t@[k]),
            ) == json_tag_strings(member(m, k)->0) && (t@[k] is Single <==> member(m, k)->0 is Str)) by {
            assert(member(m, k) is Some <==> names.take(n as int).contains(k));
        }
    }
    Json::Object(Box::new(m))
}

} // verus!
