//! Tags (string or string-list values under free-form names) and the tag
//! filters of list queries.
use vstd::prelude::*;

use crate::text;
use crate::text::{chars_of, find_char, range_has_prefix, str_eq, string_of_range};

verus! {

/// A single tag value: either a string or an array of strings.
#[derive(Debug, Clone, PartialEq, Eq)]
pub enum TagValue {
    Single(String),
    Multiple(Vec<String>),
}

/// The strings of a tag value, in order.
pub open spec fn tag_strings(v: TagValue) -> Seq<Seq<char>> {
    match v {
        TagValue::Single(s) => seq![s@],
        TagValue::Multiple(vs) => vs@.map_values(|x: String| x@),
    }
}

/// Some string of the tag value equals some filter value.
pub open spec fn strings_meet(values: Seq<Seq<char>>, filter: Seq<Seq<char>>) -> bool {
    exists|i: int, j: int| 0 <= i < values.len() && 0 <= j < filter.len() && values[i] == filter[j]
}

/// The characters of each string slice.
pub open spec fn str_views(v: Seq<&str>) -> Seq<Seq<char>> {
    v.map_values(|x: &str| x@)
}

/// The characters of each string.
pub open spec fn string_views(v: Seq<String>) -> Seq<Seq<char>> {
    v.map_values(|x: String| x@)
}

pub(crate) fn any_equal(s: &str, filter_values: &[&str]) -> (r: bool)
    ensures
        r == (exists|j: int| 0 <= j < filter_values@.len() && filter_values@[j]@ == s@),
{
    let mut j: usize = 0;
    while j < filter_values.len()
        invariant
            j <= filter_values@.len(),
            forall|k: int| 0 <= k < j ==> filter_values@[k]@ != s@,
        decreases filter_values@.len() - j,
    {
        if str_eq(filter_values[j], s) {
            return true;
        }
        j = j + 1;
    }
    false
}

impl TagValue {
    /// Check if this tag value matches any of the given filter values (OR semantics).
    pub fn matches_any(&self, filter_values: &[&str]) -> (r: bool)
        ensures
            r == strings_meet(tag_strings(*self), str_views(filter_values@)),
    {
        let ghost fv = str_views(filter_values@);
        match self {
            TagValue::Single(v) => {
                let r = any_equal(v.as_str(), filter_values);
                proof {
                    let ts = tag_strings(*self);
                    if r {
                        let j = choose|j: int| 0 <= j < filter_values@.len() && filter_values@[j]@ == v@;
                        assert(ts[0] == fv[j]);
                    } else {
                        assert forall|i: int, j: int| 0 <= i < ts.len() && 0 <= j < fv.len() implies ts[i] != fv[j] by {
                            assert(filter_values@[j]@ != v@);
                        }
                    }
                }
                r
            },
            TagValue::Multiple(vs) => {
                let ghost ts = tag_strings(*self);
                let mut i: usize = 0;
                while i < vs.len()
                    invariant
                        i <= vs@.len(),
                        ts == vs@.map_values(|x: String| x@),
                        ts == tag_strings(*self),
                        fv == str_views(filter_values@),
                        forall|a: int, b: int| 0 <= a < i && 0 <= b < fv.len() ==> ts[a] != fv[b],
                    decreases vs@.len() - i,
                {
                    if any_equal(vs[i].as_str(), filter_values) {
                        proof {
                            let j = choose|j: int| 0 <= j < filter_values@.len() && filter_values@[j]@ == vs@[i as int]@;
                            assert(ts[i as int] == vs@[i as int]@);
                            assert(fv[j] == filter_values@[j]@);
                            assert(ts[i as int] == fv[j]);
                        }
                        return true;
                    }
                    assert forall|b: int| 0 <= b < fv.len() implies ts[i as int] != fv[b] by {
                        assert(ts[i as int] == vs@[i as int]@);
                        assert(fv[b] == filter_values@[b]@);
                        assert(filter_values@[b]@ != vs@[i as int]@);
                    }
                    i = i + 1;
                }
                false
            },
        }
    }
}

/// Tags map: keys are freeform strings, values are a string or strings.
pub struct Tags {
    entries: Vec<(String, TagValue)>,
}

impl Tags {
    /// The names, in insertion order.
    pub closed spec fn names(self) -> Seq<Seq<char>> {
        self.entries@.map_values(|e: (String, TagValue)| e.0@)
    }

    /// No name occurs twice.
    #[verifier::type_invariant]
    closed spec fn names_unique(self) -> bool {
        forall|i: int, j: int|
            0 <= i < j < self.entries@.len() ==> self.entries@[i].0@ != self.entries@[j].0@
    }

    closed spec fn has_name(self, k: Seq<char>) -> bool {
        exists|i: int| 0 <= i < self.entries@.len() && self.entries@[i].0@ == k
    }

    closed spec fn position(self, k: Seq<char>) -> int {
        choose|i: int| 0 <= i < self.entries@.len() && self.entries@[i].0@ == k
    }

    proof fn lemma_position(self, i: int)
        requires
            self.names_unique(),
            0 <= i < self.entries@.len(),
        ensures
            self.has_name(self.entries@[i].0@),
            self.position(self.entries@[i].0@) == i,
    {
        let k = self.entries@[i].0@;
        let j = self.position(k);
        assert(0 <= j < self.entries@.len() && self.entries@[j].0@ == k);
        if j < i {
            assert(self.entries@[j].0@ != self.entries@[i].0@);
        } else if j > i {
            assert(self.entries@[i].0@ != self.entries@[j].0@);
        }
    }

    /// Find the position of a name.
    fn find(&self, k: &str) -> (r: Option<usize>)
        ensures
            match r {
                Some(i) => i < self.entries@.len() && self.entries@[i as int].0@ == k@ && self@.contains_key(k@)
                    && self@[k@] == self.entries@[i as int].1,
                None => !self@.contains_key(k@),
            },
    {
        proof {
            use_type_invariant(self);
        }
        let mut i: usize = 0;
        while i < self.entries.len()
            invariant
                i <= self.entries@.len(),
                self.names_unique(),
                forall|j: int| 0 <= j < i ==> self.entries@[j].0@ != k@,
            decreases self.entries@.len() - i,
        {
            if str_eq(self.entries[i].0.as_str(), k) {
                proof {
                    self.lemma_position(i as int);
                }
                return Some(i);
            }
            i = i + 1;
        }
        None
    }

    pub fn new() -> (r: Self)
        ensures
            r@ == Map::<Seq<char>, TagValue>::empty(),
    {
        let r = Tags { entries: Vec::new() };
        assert(r@ =~= Map::<Seq<char>, TagValue>::empty());
        r
    }

    /// The value under a name.
    pub fn get(&self, k: &str) -> (r: Option<&TagValue>)
        ensures
            match r {
                Some(v) => self@.contains_key(k@) && *v == self@[k@],
                None => !self@.contains_key(k@),
            },
    {
        match self.find(k) {
            Some(i) => Some(&self.entries[i].1),
            None => None,
        }
    }

    pub fn contains_key(&self, k: &str) -> (r: bool)
        ensures
            r == self@.contains_key(k@),
    {
        self.find(k).is_some()
    }

    /// Sets the value under a name, returning the value it replaces.
    pub fn insert(&mut self, k: String, v: TagValue) -> (r: Option<TagValue>)
        ensures
            final(self)@ == old(self)@.insert(k@, v),
            match r {
                Some(o) => old(self)@.contains_key(k@) && o == old(self)@[k@],
                None => !old(self)@.contains_key(k@),
            },
    {
        let old_value = self.remove(k.as_str());
        proof {
            use_type_invariant(&*self);
        }
        let ghost removed = *self;
        let ghost mid = self.entries@;
        let ghost removed_view = self@;
        let ghost key = k@;
        assert(!self@.contains_key(key));
        assert(!self.has_name(key));
        assert forall|i: int| 0 <= i < mid.len() implies mid[i].0@ != key by {
            if mid[i].0@ == key {
                assert(self.has_name(key));
            }
        }
        assert forall|q: Seq<char>| self.has_name(q) == removed_view.contains_key(q) by {}
        let mut entries: Vec<(String, TagValue)> = Vec::new();
        std::mem::swap(&mut entries, &mut self.entries);
        entries.push((k, v));
        proof {
            assert(entries@ == mid.push((k, v)));
            assert forall|i: int, j: int| 0 <= i < j < entries@.len() implies entries@[i].0@ != entries@[j].0@ by {
                if j == entries@.len() - 1 {
                    assert(entries@[i].0@ == mid[i].0@);
                } else {
                    assert(entries@[i] == mid[i]);
                    assert(entries@[j] == mid[j]);
                }
            }
        }
        self.entries = entries;
        proof {
            assert(self.entries@ == mid.push((k, v)));
            let n = self.entries@.len() - 1;
            assert(self.entries@[n].0@ == key);
            assert forall|q: Seq<char>| #[trigger] self@.contains_key(q) == old(self)@.insert(key, v).contains_key(q) by {
                if q == key {
                    assert(self.has_name(q)) by {
                        assert(self.entries@[n].0@ == q);
                    }
                } else {
                    if self.has_name(q) {
                        let j = choose|j: int| 0 <= j < self.entries@.len() && self.entries@[j].0@ == q;
                        assert(j < n);
                        assert(mid[j].0@ == q);
                        assert(removed_view.contains_key(q));
                    }
                    if removed_view.contains_key(q) {
                        let j = choose|j: int| 0 <= j < mid.len() && mid[j].0@ == q;
                        assert(self.entries@[j] == mid[j]);
                        assert(self.has_name(q));
                    }
                }
            }
        }
        proof {
            assert forall|q: Seq<char>| #[trigger] self@.contains_key(q) implies self@[q] == old(self)@.insert(key, v)[q] by {
                let n = self.entries@.len() - 1;
                if q == key {
                    self.lemma_position(n);
                } else {
                    let j = self.position(q);
                    self.lemma_position(j);
                    assert(mid[j] == self.entries@[j]);
                    removed.lemma_position(j);
                    assert(removed_view[q] == mid[j].1);
                }
            }
            assert(self@ =~= old(self)@.insert(key, v));
        }
        old_value
    }

    /// Removes a name, returning its value.
    pub fn remove(&mut self, k: &str) -> (r: Option<TagValue>)
        ensures
            final(self)@ == old(self)@.remove(k@),
            match r {
                Some(o) => old(self)@.contains_key(k@) && o == old(self)@[k@],
                None => !old(self)@.contains_key(k@),
            },
    {
        match self.find(k) {
            None => {
                assert(self@ =~= old(self)@.remove(k@));
                None
            },
            Some(i) => {
                proof {
                    use_type_invariant(&*self);
                }
                let ghost before = self.entries@;
                let mut entries: Vec<(String, TagValue)> = Vec::new();
                std::mem::swap(&mut entries, &mut self.entries);
                let e = entries.remove(i);
                proof {
                    assert(entries@ == before.remove(i as int));
                    assert forall|a: int, b: int| 0 <= a < b < entries@.len() implies entries@[a].0@
                        != entries@[b].0@ by {
                        let a2 = if a < i { a } else { a + 1 };
                        let b2 = if b < i { b } else { b + 1 };
                        assert(entries@[a] == before[a2]);
                        assert(entries@[b] == before[b2]);
                    }
                }
                self.entries = entries;
                proof {
                    assert forall|q: Seq<char>| #[trigger] self@.contains_key(q) == old(self)@.remove(k@).contains_key(q) by {
                        if self.has_name(q) {
                            let j = choose|j: int| 0 <= j < self.entries@.len() && self.entries@[j].0@ == q;
                            let j2 = if j < i { j } else { j + 1 };
                            assert(before[j2].0@ == q);
                            assert(j2 != i);
                            assert(before[j2].0@ != before[i as int].0@);
                        }
                        if q != k@ && old(self).has_name(q) {
                            let j = choose|j: int| 0 <= j < before.len() && before[j].0@ == q;
                            assert(j != i);
                            let j1 = if j < i { j } else { j - 1 };
                            assert(self.entries@[j1] == before[j]);
                        }
                    }
                    assert forall|q: Seq<char>| #[trigger] self@.contains_key(q) implies self@[q] == old(self)@[q] by {
                        let j = self.position(q);
                        self.lemma_position(j);
                        let j2 = if j < i { j } else { j + 1 };
                        assert(before[j2] == self.entries@[j]);
                        old(self).lemma_position(j2);
                    }
                    assert(self@ =~= old(self)@.remove(k@));
                }
                Some(e.1)
            },
        }
    }

    /// Number of names. The names are distinct and are exactly those with a value.
    pub fn len(&self) -> (r: usize)
        ensures
            r == self.names().len(),
            self.names().no_duplicates(),
            forall|k: Seq<char>| #[trigger] self@.contains_key(k) <==> self.names().contains(k),
    {
        proof {
            use_type_invariant(self);
            let n = self.names();
            assert forall|i: int, j: int| 0 <= i < n.len() && 0 <= j < n.len() && i != j implies n[i] != n[j] by {
                if i < j {
                    assert(self.entries@[i].0@ != self.entries@[j].0@);
                } else {
                    assert(self.entries@[j].0@ != self.entries@[i].0@);
                }
            }
            assert forall|k: Seq<char>| #[trigger] self@.contains_key(k) <==> n.contains(k) by {
                if self@.contains_key(k) {
                    let i = self.position(k);
                    assert(n[i] == k);
                }
                if n.contains(k) {
                    let i = choose|i: int| 0 <= i < n.len() && n[i] == k;
                    assert(self.entries@[i].0@ == k);
                }
            }
        }
        self.entries.len()
    }

    pub fn is_empty(&self) -> (r: bool)
        ensures
            r == (self@ == Map::<Seq<char>, TagValue>::empty()),
    {
        proof {
            use_type_invariant(self);
            if self.entries@.len() > 0 {
                self.lemma_position(0);
                assert(self@.contains_key(self.entries@[0].0@));
            } else {
                assert(self@ =~= Map::<Seq<char>, TagValue>::empty());
            }
        }
        self.entries.len() == 0
    }

    /// The name and value at a position of the insertion order.
    pub fn entry_at(&self, i: usize) -> (r: (&String, &TagValue))
        requires
            i < self.names().len(),
        ensures
            r.0@ == self.names()[i as int],
            self@.contains_key(r.0@),
            self@[r.0@] == *r.1,
    {
        proof {
            use_type_invariant(self);
            self.lemma_position(i as int);
        }
        (&self.entries[i].0, &self.entries[i].1)
    }
}

impl View for Tags {
    type V = Map<Seq<char>, TagValue>;

    closed spec fn view(&self) -> Map<Seq<char>, TagValue> {
        Map::new(|k: Seq<char>| self.has_name(k), |k: Seq<char>| self.entries@[self.position(k)].1)
    }
}

impl Default for Tags {
    fn default() -> (r: Self)
        ensures
            r@ == Map::<Seq<char>, TagValue>::empty(),
    {
        Tags::new()
    }
}

/// The pieces of `s` between occurrences of `c` (empty pieces included), as `str::split` yields them.
pub open spec fn split_on(s: Seq<char>, c: char) -> Seq<Seq<char>>
    decreases s.len(),
{
    if s.len() == 0 {
        seq![Seq::<char>::empty()]
    } else {
        let r = split_on(s.drop_last(), c);
        if s.last() == c {
            r.push(Seq::<char>::empty())
        } else {
            r.update(r.len() - 1, r.last().push(s.last()))
        }
    }
}

pub proof fn lemma_split_on_nonempty(s: Seq<char>, c: char)
    ensures
        split_on(s, c).len() >= 1,
    decreases s.len(),
{
    if s.len() > 0 {
        lemma_split_on_nonempty(s.drop_last(), c);
    }
}

/// The pieces of `v[lo..hi]` between occurrences of `c`, as index ranges.
pub fn split_ranges(v: &Vec<char>, lo: usize, hi: usize, c: char) -> (r: Vec<(usize, usize)>)
    requires
        lo <= hi <= v@.len(),
    ensures
        r@.len() == split_on(v@.subrange(lo as int, hi as int), c).len(),
        forall|k: int|
            0 <= k < r@.len() ==> {
                &&& lo <= (#[trigger] r@[k]).0 <= r@[k].1 <= hi
                &&& v@.subrange(r@[k].0 as int, r@[k].1 as int) == split_on(
                    v@.subrange(lo as int, hi as int),
                    c,
                )[k]
            },
{
    let ghost s = v@.subrange(lo as int, hi as int);
    let mut r: Vec<(usize, usize)> = Vec::new();
    let mut start = lo;
    let mut i = lo;
    assert(s.take(0) =~= Seq::<char>::empty());
    while i < hi
        invariant
            lo <= start <= i <= hi <= v@.len(),
            s == v@.subrange(lo as int, hi as int),
            r@.len() + 1 == split_on(s.take(i - lo), c).len(),
            forall|k: int|
                0 <= k < r@.len() ==> {
                    &&& lo <= (#[trigger] r@[k]).0 <= r@[k].1 <= hi
                    &&& v@.subrange(r@[k].0 as int, r@[k].1 as int) == split_on(s.take(i - lo), c)[k]
                },
            v@.subrange(start as int, i as int) == split_on(s.take(i - lo), c).last(),
        decreases hi - i,
    {
        let ghost prev = split_on(s.take(i - lo), c);
        let ghost t = s.take(i - lo + 1);
        assert(t.drop_last() =~= s.take(i - lo));
        assert(t.last() == v@[i as int]);
        proof {
            lemma_split_on_nonempty(s.take(i - lo), c);
        }
        if v[i] == c {
            r.push((start, i));
            start = i + 1;
            i = i + 1;
            assert(v@.subrange(start as int, i as int) =~= Seq::<char>::empty());
        } else {
            i = i + 1;
            assert(v@.subrange(start as int, i as int) =~= v@.subrange(start as int, (i - 1) as int).push(v@[i - 1]));
        }
    }
    r.push((start, hi));
    assert(s.take(hi - lo) =~= s);
    r
}

/// The strings of the pieces of `v[lo..hi]` between occurrences of `c`.
pub fn split_strings(v: &Vec<char>, lo: usize, hi: usize, c: char) -> (r: Vec<String>)
    requires
        lo <= hi <= v@.len(),
    ensures
        string_views(r@) == split_on(v@.subrange(lo as int, hi as int), c),
{
    let ranges = split_ranges(v, lo, hi, c);
    let ghost pieces = split_on(v@.subrange(lo as int, hi as int), c);
    let mut out: Vec<String> = Vec::new();
    let mut k: usize = 0;
    while k < ranges.len()
        invariant
            k <= ranges@.len(),
            ranges@.len() == pieces.len(),
            pieces == split_on(v@.subrange(lo as int, hi as int), c),
            forall|q: int|
                0 <= q < ranges@.len() ==> {
                    &&& lo <= (#[trigger] ranges@[q]).0 <= ranges@[q].1 <= hi
                    &&& v@.subrange(ranges@[q].0 as int, ranges@[q].1 as int) == pieces[q]
                },
            lo <= hi <= v@.len(),
            string_views(out@) == pieces.take(k as int),
        decreases ranges@.len() - k,
    {
        let (a, b) = ranges[k];
        let piece = string_of_range(v, a, b);
        let ghost before = out@;
        assert(piece@ == pieces[k as int]);
        out.push(piece);
        assert(out@ == before.push(piece));
        assert(string_views(before).len() == before.len());
        assert(pieces.take(k as int).len() == k);
        assert(before.len() == k);
        assert forall|j: int| 0 <= j < k + 1 implies string_views(out@)[j] == pieces.take(k + 1)[j] by {
            if j < k {
                assert(string_views(before)[j] == pieces.take(k as int)[j]);
                assert(out@[j] == before[j]);
            }
        }
        k = k + 1;
        assert(string_views(out@) =~= pieces.take(k as int));
    }
    assert(pieces.take(k as int) =~= pieces);
    out
}

/// Parsed tag filters extracted from a query string.
#[derive(Debug, Default)]
pub struct TagFilters {
    /// `tag.{name}` = comma-separated values (OR match)
    pub value_filters: Vec<(String, Vec<String>)>,
    /// `tag_exists.{name}` = true/false
    pub exists_filters: Vec<(String, bool)>,
}

/// A value filter passes: the tag is present and one of its strings is a filter value.
pub open spec fn value_filter_passes(tags: Map<Seq<char>, TagValue>, name: Seq<char>, values: Seq<Seq<char>>) -> bool {
    tags.contains_key(name) && strings_meet(tag_strings(tags[name]), values)
}

/// The tags pass every filter: AND across filters, OR within the values of one filter.
pub open spec fn filters_match(
    value_filters: Seq<(String, Vec<String>)>,
    exists_filters: Seq<(String, bool)>,
    tags: Map<Seq<char>, TagValue>,
) -> bool {
    &&& forall|i: int|
        0 <= i < value_filters.len() ==> value_filter_passes(
            tags,
            (#[trigger] value_filters[i]).0@,
            string_views(value_filters[i].1@),
        )
    &&& forall|i: int|
        0 <= i < exists_filters.len() ==> tags.contains_key((#[trigger] exists_filters[i]).0@)
            == exists_filters[i].1
}

/// The filter that one `key=value` pair of a query gives, if any: `{vp}{name}=a,b` is a
/// value filter; otherwise `{ep}{name}=v` is an exists filter (true only for `true`).
pub open spec fn pair_filter(pair: Seq<char>, vp: Seq<char>, ep: Seq<char>) -> Option<
    (Seq<char>, Result<Seq<Seq<char>>, bool>),
> {
    match text::first_index(pair, '=') {
        None => None,
        Some(i) => {
            let key = pair.take(i);
            let value = pair.skip(i + 1);
            if text::has_prefix(key, vp) {
                Some((key.skip(vp.len() as int), Ok(split_on(value, ','))))
            } else if text::has_prefix(key, ep) {
                Some((key.skip(ep.len() as int), Err(value == "true"@)))
            } else {
                None
            }
        },
    }
}

/// The value filters of a sequence of pairs, in order.
pub open spec fn value_filters_of(pairs: Seq<Seq<char>>, vp: Seq<char>, ep: Seq<char>) -> Seq<
    (Seq<char>, Seq<Seq<char>>),
>
    decreases pairs.len(),
{
    if pairs.len() == 0 {
        seq![]
    } else {
        let r = value_filters_of(pairs.drop_last(), vp, ep);
        match pair_filter(pairs.last(), vp, ep) {
            Some((name, Ok(values))) => r.push((name, values)),
            _ => r,
        }
    }
}

/// The exists filters of a sequence of pairs, in order.
pub open spec fn exists_filters_of(pairs: Seq<Seq<char>>, vp: Seq<char>, ep: Seq<char>) -> Seq<
    (Seq<char>, bool),
>
    decreases pairs.len(),
{
    if pairs.len() == 0 {
        seq![]
    } else {
        let r = exists_filters_of(pairs.drop_last(), vp, ep);
        match pair_filter(pairs.last(), vp, ep) {
            Some((name, Err(b))) => r.push((name, b)),
            _ => r,
        }
    }
}

/// The value filters as plain sequences.
pub open spec fn value_filters_view(v: Seq<(String, Vec<String>)>) -> Seq<(Seq<char>, Seq<Seq<char>>)> {
    v.map_values(|f: (String, Vec<String>)| (f.0@, string_views(f.1@)))
}

/// The exists filters as plain sequences.
pub open spec fn exists_filters_view(v: Seq<(String, bool)>) -> Seq<(Seq<char>, bool)> {
    v.map_values(|f: (String, bool)| (f.0@, f.1))
}

fn literal_chars(s: &str) -> (v: Vec<char>)
    ensures
        v@ == s@,
{
    chars_of(s)
}

impl TagFilters {
    /// Parse tag filters from a raw query string using the standard "tag" prefix.
    pub fn from_query(query: &str) -> (r: Self)
        ensures
            value_filters_view(r.value_filters@) == value_filters_of(
                split_on(query@, '&'),
                "tag."@,
                "tag_exists."@,
            ),
            exists_filters_view(r.exists_filters@) == exists_filters_of(
                split_on(query@, '&'),
                "tag."@,
                "tag_exists."@,
            ),
    {
        let r = Self::from_query_with_prefix(query, "tag");
        proof {
            reveal_strlit("tag");
            reveal_strlit("tag.");
            reveal_strlit("tag_exists.");
            reveal_strlit(".");
            reveal_strlit("_exists.");
            assert("tag"@ + "."@ =~= "tag."@);
            assert("tag"@ + "_exists."@ =~= "tag_exists."@);
        }
        r
    }

    /// Parse tag filters from a raw query string with a configurable prefix:
    /// `{prefix}.{name}=a,b` and `{prefix}_exists.{name}=true|false`; other pairs are ignored.
    pub fn from_query_with_prefix(query: &str, prefix: &str) -> (r: Self)
        ensures
            value_filters_view(r.value_filters@) == value_filters_of(
                split_on(query@, '&'),
                prefix@ + "."@,
                prefix@ + "_exists."@,
            ),
            exists_filters_view(r.exists_filters@) == exists_filters_of(
                split_on(query@, '&'),
                prefix@ + "."@,
                prefix@ + "_exists."@,
            ),
    {
        let value_prefix = chars_of(String::from_str(prefix).concat(".").as_str());
        let exists_prefix = chars_of(String::from_str(prefix).concat("_exists.").as_str());
        let ghost vp = prefix@ + "."@;
        let ghost ep = prefix@ + "_exists."@;
        let q = chars_of(query);
        let pairs = split_ranges(&q, 0, q.len(), '&');
        let ghost ps = split_on(q@.subrange(0, q@.len() as int), '&');
        assert(q@.subrange(0, q@.len() as int) =~= query@);
        let mut value_filters: Vec<(String, Vec<String>)> = Vec::new();
        let mut exists_filters: Vec<(String, bool)> = Vec::new();
        let mut k: usize = 0;
        while k < pairs.len()
            invariant
                k <= pairs@.len(),
                pairs@.len() == ps.len(),
                value_prefix@ == vp,
                exists_prefix@ == ep,
                forall|j: int|
                    0 <= j < pairs@.len() ==> {
                        &&& 0 <= (#[trigger] pairs@[j]).0 <= pairs@[j].1 <= q@.len()
                        &&& q@.subrange(pairs@[j].0 as int, pairs@[j].1 as int) == ps[j]
                    },
                value_filters_view(value_filters@) == value_filters_of(ps.take(k as int), vp, ep),
                exists_filters_view(exists_filters@) == exists_filters_of(ps.take(k as int), vp, ep),
            decreases pairs@.len() - k,
        {
            let (a, b) = pairs[k];
            let ghost pair = ps[k as int];
            let ghost before_v = value_filters@;
            let ghost before_e = exists_filters@;
            proof {
                let t = ps.take(k + 1);
                assert(t.drop_last() =~= ps.take(k as int));
                assert(t.last() == pair);
            }
            match find_char(&q, a, '=') {
                Some(eq) if eq < b => {
                    let ghost i = eq - a;
                    proof {
                        assert(text::is_first_index(pair, '=', i)) by {
                            assert(pair[i] == q@[eq as int]);
                            assert(q@.skip(a as int)[i] == q@[eq as int]);
                            assert forall|j: int| 0 <= j < i implies pair[j] != '=' by {
                                assert(pair[j] == q@[a + j]);
                                assert(q@.skip(a as int)[j] == q@[a + j]);
                            }
                        }
                        text::lemma_first_index(pair, '=', i);
                        assert(pair.take(i) =~= q@.subrange(a as int, eq as int));
                        assert(pair.skip(i + 1) =~= q@.subrange(eq + 1, b as int));
                    }
                    if range_has_prefix(&q, a, eq, &value_prefix) {
                        let name = string_of_range(&q, a + value_prefix.len(), eq);
                        let values = split_strings(&q, eq + 1, b, ',');
                        proof {
                            assert(q@.subrange(a as int, eq as int).skip(vp.len() as int) =~= q@.subrange(
                                a + value_prefix@.len(),
                                eq as int,
                            ));
                        }
                        value_filters.push((name, values));
                        assert(value_filters_view(value_filters@) =~= value_filters_view(before_v).push(
                            (name@, string_views(values@)),
                        ));
                    } else if range_has_prefix(&q, a, eq, &exists_prefix) {
                        let name = string_of_range(&q, a + exists_prefix.len(), eq);
                        let value = string_of_range(&q, eq + 1, b);
                        let is_true = str_eq(value.as_str(), "true");
                        proof {
                            assert(q@.subrange(a as int, eq as int).skip(ep.len() as int) =~= q@.subrange(
                                a + exists_prefix@.len(),
                                eq as int,
                            ));
                        }
                        exists_filters.push((name, is_true));
                        assert(exists_filters_view(exists_filters@) =~= exists_filters_view(before_e).push(
                            (name@, is_true),
                        ));
                    }
                },
                _ => {
                    proof {
                        assert forall|j: int| 0 <= j < pair.len() implies pair[j] != '=' by {
                            assert(pair[j] == q@[a + j]);
                        }
                        text::lemma_first_index_none(pair, '=');
                    }
                },
            }
            k = k + 1;
        }
        assert(ps.take(pairs@.len() as int) =~= ps);
        TagFilters { value_filters, exists_filters }
    }

    /// Check if a tags map passes all filters (AND across filters, OR within values).
    pub fn matches(&self, tags: &Tags) -> (r: bool)
        ensures
            r == filters_match(self.value_filters@, self.exists_filters@, tags@),
    {
        let mut i: usize = 0;
        while i < self.value_filters.len()
            invariant
                i <= self.value_filters@.len(),
                forall|j: int|
                    0 <= j < i ==> value_filter_passes(
                        tags@,
                        (#[trigger] self.value_filters@[j]).0@,
                        string_views(self.value_filters@[j].1@),
                    ),
            decreases self.value_filters@.len() - i,
        {
            let name = &self.value_filters[i].0;
            let filter_values = &self.value_filters[i].1;
            let mut filter_refs: Vec<&str> = Vec::new();
            let mut k: usize = 0;
            while k < filter_values.len()
                invariant
                    k <= filter_values@.len(),
                    str_views(filter_refs@) == string_views(filter_values@).take(k as int),
                decreases filter_values@.len() - k,
            {
                let fv = filter_values[k].as_str();
                let ghost before = filter_refs@;
                assert(fv@ == filter_values@[k as int]@);
                filter_refs.push(fv);
                assert(filter_refs@ == before.push(fv));
                assert(str_views(before).len() == before.len());
                assert(string_views(filter_values@).len() == filter_values@.len());
                assert(before.len() == k);
                assert forall|j: int| 0 <= j < k + 1 implies str_views(filter_refs@)[j] == string_views(filter_values@).take(k + 1)[j] by {
                    if j < k {
                        assert(str_views(before)[j] == string_views(filter_values@).take(k as int)[j]);
                        assert(filter_refs@[j] == before[j]);
                    }
                }
                k = k + 1;
                assert(str_views(filter_refs@) =~= string_views(filter_values@).take(k as int));
            }
            assert(string_views(filter_values@).take(k as int) =~= string_views(filter_values@));
            match tags.get(name.as_str()) {
                Some(tag_value) => {
                    if !tag_value.matches_any(filter_refs.as_slice()) {
                        return false;
                    }
                },
                None => {
                    return false;
                },
            }
            i = i + 1;
        }
        let mut i: usize = 0;
        while i < self.exists_filters.len()
            invariant
                i <= self.exists_filters@.len(),
                forall|j: int|
                    0 <= j < self.value_filters@.len() ==> value_filter_passes(
                        tags@,
                        (#[trigger] self.value_filters@[j]).0@,
                        string_views(self.value_filters@[j].1@),
                    ),
                forall|j: int|
                    0 <= j < i ==> tags@.contains_key((#[trigger] self.exists_filters@[j]).0@)
                        == self.exists_filters@[j].1,
            decreases self.exists_filters@.len() - i,
        {
            let exists = tags.contains_key(self.exists_filters[i].0.as_str());
            if exists != self.exists_filters[i].1 {
                return false;
            }
            i = i + 1;
        }
        true
    }
}

} // verus!
