//! Verified core of a Time-addressable Media Store (TAMS): timestamps and
//! time ranges, rational rates, tag filters, webhook routing, credential
//! checks, pagination tokens and the in-memory metadata rules.
#![allow(unused_imports)]

pub mod text;
pub mod timestamp;
pub mod timerange;
pub mod rational;
pub mod tags;
pub mod order;
pub mod strmap;
pub mod json;
pub mod sys;
pub mod auth;
pub mod error;
pub mod webhook;
pub mod pagination;
pub mod docs;
pub mod source;
pub mod flow;
pub mod flowdoc;
pub mod collection;
pub mod segment;
pub mod object;
pub mod service;
pub mod store;
pub mod api;
pub mod presign;

use vstd::prelude::*;

verus! {

/// An identifier that can stand as a single file name: not empty, without
/// a slash or backslash, and neither `.` nor `..`.
pub open spec fn safe_id(id: Seq<char>) -> bool {
    &&& id.len() > 0
    &&& !id.contains('\\')
    &&& !id.contains('/')
    &&& id != seq!['.']
    &&& id != seq!['.', '.']
}

/// Whether `id` is a safe single file name component.
pub fn is_safe_id(id: &str) -> (r: bool)
    ensures
        r == safe_id(id@),
{
    let v = text::chars_of(id);
    if v.len() == 0 {
        return false;
    }
    let mut i: usize = 0;
    while i < v.len()
        invariant
            i <= v@.len(),
            v@ == id@,
            forall|j: int| 0 <= j < i ==> v@[j] != '\\' && v@[j] != '/',
        decreases v@.len() - i,
    {
        if v[i] == '\\' || v[i] == '/' {
            assert(id@[i as int] == v@[i as int]);
            return false;
        }
        i = i + 1;
    }
    if v.len() == 1 && v[0] == '.' {
        assert(id@ =~= seq!['.']);
        return false;
    }
    if v.len() == 2 && v[0] == '.' && v[1] == '.' {
        assert(id@ =~= seq!['.', '.']);
        return false;
    }
    assert(!id@.contains('\\'));
    assert(!id@.contains('/'));
    proof {
        if id@ == seq!['.'] {
            assert(v@[0] == '.');
        }
        if id@ == seq!['.', '.'] {
            assert(v@[0] == '.' && v@[1] == '.');
        }
    }
    true
}

} // verus!
