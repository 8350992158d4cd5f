//! JSON documents as plain values: the resource documents the store keeps,
//! edits and hands back.
use vstd::prelude::*;
use crate::text;
use crate::text::{all_digits_in, chars_of, str_eq};
use crate::timestamp::read_digits;

verus! {

/// A JSON value. A number is kept as its text, so no precision is lost.
pub enum Json {
    Null,
    Bool(bool),
    Number(String),
    Str(String),
    Array(Box<Items>),
    Object(Box<Members>),
}

/// The elements of an array, first to last.
pub enum Items {
    Nil,
    Cons(Json, Box<Items>),
}

/// The members of an object, first to last. A name that occurs more than
/// once reads as its first occurrence.
pub enum Members {
    Nil,
    Cons(String, Json, Box<Members>),
}

/// The member named `k`: its first occurrence.
pub open spec fn member(m: Members, k: Seq<char>) -> Option<Json>
    decreases m,
{
    match m {
        Members::Nil => None,
        Members::Cons(name, v, rest) => if name@ == k {
            Some(v)
        } else {
            member(*rest, k)
        },
    }
}

/// The members not named `k`, in order.
pub open spec fn without(m: Members, k: Seq<char>) -> Members
    decreases m,
{
    match m {
        Members::Nil => Members::Nil,
        Members::Cons(name, v, rest) => if name@ == k {
            without(*rest, k)
        } else {
            Members::Cons(name, v, Box::new(without(*rest, k)))
        },
    }
}

/// The elements of an array as a sequence.
pub open spec fn items_seq(l: Items) -> Seq<Json>
    decreases l,
{
    match l {
        Items::Nil => Seq::empty(),
        Items::Cons(v, rest) => seq![v] + items_seq(*rest),
    }
}

/// The member names of an object, in order, repeats included.
pub open spec fn member_names(m: Members) -> Seq<Seq<char>>
    decreases m,
{
    match m {
        Members::Nil => Seq::empty(),
        Members::Cons(name, _, rest) => seq![name@] + member_names(*rest),
    }
}

/// The member names of a value: those of an object, none for other values.
pub open spec fn object_names(j: Json) -> Seq<Seq<char>> {
    match j {
        Json::Object(m) => member_names(*m),
        _ => Seq::empty(),
    }
}

/// The member named `k` of an object; nothing for other values.
pub open spec fn json_get(j: Json, k: Seq<char>) -> Option<Json> {
    match j {
        Json::Object(m) => member(*m, k),
        _ => None,
    }
}

/// The text of a string value.
pub open spec fn json_text(j: Option<Json>) -> Option<Seq<char>> {
    match j {
        Some(Json::Str(s)) => Some(s@),
        _ => None,
    }
}

/// The value of a boolean.
pub open spec fn json_bool(j: Option<Json>) -> Option<bool> {
    match j {
        Some(Json::Bool(b)) => Some(b),
        _ => None,
    }
}

/// The value of an integer written in decimal: an optional minus sign and digits.
pub open spec fn integer_text_value(t: Seq<char>) -> Option<int> {
    if t.len() > 1 && t[0] == '-' && text::all_digits(t.drop_first()) {
        Some(-text::digits_value(t.drop_first()))
    } else if t.len() > 0 && text::all_digits(t) {
        Some(text::digits_value(t) as int)
    } else {
        None
    }
}

/// The value of an integer text within `i64`.
pub open spec fn i64_of_text(t: Seq<char>) -> Option<int> {
    match integer_text_value(t) {
        Some(v) => if i64::MIN <= v <= i64::MAX {
            Some(v)
        } else {
            None
        },
        None => None,
    }
}

/// The value of a number that is an integer within `i64`.
pub open spec fn json_i64(j: Option<Json>) -> Option<int> {
    match j {
        Some(Json::Number(t)) => i64_of_text(t@),
        _ => None,
    }
}

/// The value of a text of decimal digits within `u64`.
pub open spec fn u64_of_text(t: Seq<char>) -> Option<int> {
    if t.len() > 0 && text::all_digits(t) && text::digits_value(t) <= u64::MAX {
        Some(text::digits_value(t) as int)
    } else {
        None
    }
}

/// The value of a number written with digits only, within `u64`.
pub open spec fn json_u64(j: Option<Json>) -> Option<int> {
    match j {
        Some(Json::Number(t)) => u64_of_text(t@),
        _ => None,
    }
}

/// The value of a text of decimal digits within `u64`.
pub fn natural_of_text(t: &str) -> (r: Option<u64>)
    ensures
        match r {
            Some(n) => u64_of_text(t@) == Some(n as int),
            None => u64_of_text(t@) is None,
        },
{
    let v = chars_of(t);
    let n = v.len();
    if n == 0 {
        return None;
    }
    assert(v@.subrange(0, n as int) =~= t@);
    if !all_digits_in(&v, 0, n) {
        return None;
    }
    match read_digits(&v, 0, n, 18446744073709551615) {
        Some(m) => Some(m as u64),
        None => None,
    }
}

pub open spec fn is_object(j: Option<Json>) -> bool {
    match j {
        Some(Json::Object(_)) => true,
        _ => false,
    }
}

/// `j` with member `k` removed, when `j` is an object.
pub open spec fn json_removed(j: Json, k: Seq<char>) -> Json {
    match j {
        Json::Object(m) => Json::Object(Box::new(without(*m, k))),
        _ => j,
    }
}

/// `j` with member `k` set to `v`, when `j` is an object.
pub open spec fn json_with(j: Json, k: Seq<char>, name: String, v: Json) -> Json {
    match j {
        Json::Object(m) => Json::Object(Box::new(Members::Cons(name, v, Box::new(without(*m, k))))),
        _ => j,
    }
}

/// Removing `k` leaves every other member as it was and no `k`.
pub proof fn lemma_member_without(m: Members, k: Seq<char>, q: Seq<char>)
    ensures
        member(without(m, k), q) == if q == k {
            None
        } else {
            member(m, q)
        },
    decreases m,
{
    match m {
        Members::Nil => {},
        Members::Cons(name, v, rest) => {
            lemma_member_without(*rest, k, q);
        },
    }
}

/// What a read gives back after a write: the value written under its name,
/// every other member as before.
pub proof fn lemma_get_with(j: Json, name: String, v: Json, q: Seq<char>)
    requires
        j is Object,
    ensures
        json_get(json_with(j, name@, name, v), q) == if q == name@ {
            Some(v)
        } else {
            json_get(j, q)
        },
{
    lemma_member_without(*j->Object_0, name@, q);
}

/// A read after a removal: nothing under the removed name, every other
/// member as before.
pub proof fn lemma_get_removed(j: Json, k: Seq<char>, q: Seq<char>)
    ensures
        json_get(json_removed(j, k), q) == if q == k && j is Object {
            None
        } else {
            json_get(j, q)
        },
        json_removed(j, k) is Object <==> j is Object,
{
    if j is Object {
        lemma_member_without(*j->Object_0, k, q);
    }
}

impl Items {
    pub fn copy(&self) -> (r: Items)
        ensures
            r == *self,
        decreases self,
    {
        match self {
            Items::Nil => Items::Nil,
            Items::Cons(v, rest) => Items::Cons(v.copy(), Box::new(rest.copy())),
        }
    }
}

impl Members {
    pub fn copy(&self) -> (r: Members)
        ensures
            r == *self,
        decreases self,
    {
        match self {
            Members::Nil => Members::Nil,
            Members::Cons(name, v, rest) => Members::Cons(name.clone(), v.copy(), Box::new(rest.copy())),
        }
    }

    /// The member named `k`.
    pub fn get(&self, k: &str) -> (r: Option<&Json>)
        ensures
            match r {
                Some(v) => member(*self, k@) == Some(*v),
                None => member(*self, k@) is None,
            },
        decreases self,
    {
        match self {
            Members::Nil => None,
            Members::Cons(name, v, rest) => {
                if str_eq(name.as_str(), k) {
                    Some(v)
                } else {
                    rest.get(k)
                }
            },
        }
    }

    /// The members not named `k`.
    pub fn without(&self, k: &str) -> (r: Members)
        ensures
            r == without(*self, k@),
        decreases self,
    {
        match self {
            Members::Nil => Members::Nil,
            Members::Cons(name, v, rest) => {
                if str_eq(name.as_str(), k) {
                    rest.without(k)
                } else {
                    Members::Cons(name.clone(), v.copy(), Box::new(rest.without(k)))
                }
            },
        }
    }
}

impl Json {
    /// A copy of the value.
    pub fn copy(&self) -> (r: Json)
        ensures
            r == *self,
        decreases self,
    {
        match self {
            Json::Null => Json::Null,
            Json::Bool(b) => Json::Bool(*b),
            Json::Number(t) => Json::Number(t.clone()),
            Json::Str(t) => Json::Str(t.clone()),
            Json::Array(items) => Json::Array(Box::new(items.copy())),
            Json::Object(members) => Json::Object(Box::new(members.copy())),
        }
    }

    /// An object without members.
    pub fn empty_object() -> (r: Json)
        ensures
            r == Json::Object(Box::new(Members::Nil)),
    {
        Json::Object(Box::new(Members::Nil))
    }

    /// The member named `k`, when this is an object that has one.
    pub fn get(&self, k: &str) -> (r: Option<&Json>)
        ensures
            match r {
                Some(v) => json_get(*self, k@) == Some(*v),
                None => json_get(*self, k@) is None,
            },
    {
        match self {
            Json::Object(members) => members.get(k),
            _ => None,
        }
    }

    /// The text of the member named `k`, when it is a string.
    pub fn get_str(&self, k: &str) -> (r: Option<&String>)
        ensures
            match r {
                Some(s) => json_text(json_get(*self, k@)) == Some(s@),
                None => json_text(json_get(*self, k@)) is None,
            },
    {
        match self.get(k) {
            Some(Json::Str(s)) => Some(s),
            _ => None,
        }
    }

    /// The member named `k`, when it is a boolean.
    pub fn get_bool(&self, k: &str) -> (r: Option<bool>)
        ensures
            r == json_bool(json_get(*self, k@)),
    {
        match self.get(k) {
            Some(Json::Bool(b)) => Some(*b),
            _ => None,
        }
    }

    /// The member named `k`, when it is a number written with digits only, within `u64`.
    pub fn get_u64(&self, k: &str) -> (r: Option<u64>)
        ensures
            match r {
                Some(n) => json_u64(json_get(*self, k@)) == Some(n as int),
                None => json_u64(json_get(*self, k@)) is None,
            },
    {
        match self.get(k) {
            Some(Json::Number(t)) => natural_of_text(t.as_str()),
            _ => None,
        }
    }

    /// The member named `k`, when it is an integer within `i64`.
    pub fn get_i64(&self, k: &str) -> (r: Option<i64>)
        ensures
            match r {
                Some(n) => json_i64(json_get(*self, k@)) == Some(n as int),
                None => json_i64(json_get(*self, k@)) is None,
            },
    {
        match self.get(k) {
            Some(Json::Number(t)) => integer_of_text(t.as_str()),
            _ => None,
        }
    }

    /// Whether this is an object.
    pub fn is_object(&self) -> (r: bool)
        ensures
            r == (*self is Object),
    {
        match self {
            Json::Object(_) => true,
            _ => false,
        }
    }

    /// Removes member `k` from an object; other values are left as they are.
    pub fn remove(&mut self, k: &str)
        ensures
            *final(self) == json_removed(*old(self), k@),
    {
        let mut current = Json::Null;
        std::mem::swap(&mut current, self);
        match current {
            Json::Object(members) => {
                *self = Json::Object(Box::new(members.without(k)));
            },
            other => {
                *self = other;
            },
        }
    }

    /// Sets member `k` of an object to `v`, replacing any earlier value;
    /// other values are left as they are.
    pub fn insert(&mut self, k: String, v: Json)
        ensures
            *final(self) == json_with(*old(self), k@, k, v),
    {
        let mut current = Json::Null;
        std::mem::swap(&mut current, self);
        match current {
            Json::Object(members) => {
                let rest = members.without(k.as_str());
                *self = Json::Object(Box::new(Members::Cons(k, v, Box::new(rest))));
            },
            other => {
                *self = other;
            },
        }
    }
}

/// The value of an integer text within `i64`.
pub fn integer_of_text(t: &str) -> (r: Option<i64>)
    ensures
        match r {
            Some(n) => i64_of_text(t@) == Some(n as int),
            None => i64_of_text(t@) is None,
        },
{
    let v = chars_of(t);
    let n = v.len();
    if n > 1 && v[0] == '-' {
        assert(v@.subrange(1, n as int) =~= t@.drop_first());
        if !all_digits_in(&v, 1, n) {
            return None;
        }
        match read_digits(&v, 1, n, 9223372036854775808) {
            Some(m) => {
                if m == 9223372036854775808 {
                    Some(i64::MIN)
                } else {
                    Some(-(m as i64))
                }
            },
            None => None,
        }
    } else if n > 0 {
        assert(v@.subrange(0, n as int) =~= t@);
        if !all_digits_in(&v, 0, n) {
            return None;
        }
        match read_digits(&v, 0, n, 9223372036854775807) {
            Some(m) => Some(m as i64),
            None => None,
        }
    } else {
        None
    }
}

} // verus!
