//! Time ranges in the TAMS notation: `_` (eternity), `()` (never),
//! `[0:0_10:0)`, `[10:0]` (an instant), with open ends.
use vstd::prelude::*;

use crate::text;
use crate::text::{chars_of, find_char, string_of};
use crate::timestamp::{
    lemma_parsed_timestamp_text, lemma_timestamp_text_chars, lemma_timestamp_text_parses,
    parse_timestamp_in,
    spec_parse_timestamp, spec_secs, spec_timestamp_error, timestamp_text, Timestamp,
};

verus! {

/// One end of a time range: a timestamp with an inclusive/exclusive flag.
#[derive(Debug, Clone, Copy, PartialEq, Eq, Structural)]
pub struct Bound {
    pub timestamp: Timestamp,
    pub inclusive: bool,
}

/// A time range following the TAMS spec notation.
///
/// Eternity is `Range { start: None, end: None }`; `None` means unbounded
/// in that direction.
#[derive(Debug, Clone, Copy, PartialEq, Eq, Structural)]
pub enum TimeRange {
    /// Empty range: contains no timestamps.
    Never,
    /// A range with optional start and end bounds.
    Range { start: Option<Bound>, end: Option<Bound> },
}

/// Nanosecond count of a bound.
pub open spec fn at(b: Bound) -> int {
    b.timestamp.nanos as int
}

/// `t` lies on the inner side of a start bound (no bound: always).
pub open spec fn after_start(start: Option<Bound>, t: int) -> bool {
    match start {
        None => true,
        Some(b) => if b.inclusive {
            t >= at(b)
        } else {
            t > at(b)
        },
    }
}

/// `t` lies on the inner side of an end bound (no bound: always).
pub open spec fn before_end(end: Option<Bound>, t: int) -> bool {
    match end {
        None => true,
        Some(b) => if b.inclusive {
            t <= at(b)
        } else {
            t < at(b)
        },
    }
}

/// The nanosecond `t` lies in the range.
pub open spec fn range_contains(tr: TimeRange, t: int) -> bool {
    match tr {
        TimeRange::Never => false,
        TimeRange::Range { start, end } => after_start(start, t) && before_end(end, t),
    }
}

/// The start bound comes before the end bound (they can meet).
pub open spec fn spec_start_before_end(start: Option<Bound>, end: Option<Bound>) -> bool {
    match (start, end) {
        (Some(s), Some(e)) => at(s) < at(e) || (at(s) == at(e) && s.inclusive && e.inclusive),
        _ => true,
    }
}

/// The later of two start bounds; at the same instant, inclusive only if both are.
pub open spec fn spec_intersect_bound_start(a: Option<Bound>, b: Option<Bound>) -> Option<Bound> {
    match (a, b) {
        (None, x) => x,
        (x, None) => x,
        (Some(x), Some(y)) => if at(x) == at(y) {
            Some(Bound { timestamp: x.timestamp, inclusive: x.inclusive && y.inclusive })
        } else if at(x) < at(y) {
            Some(y)
        } else {
            Some(x)
        },
    }
}

/// The earlier of two end bounds; at the same instant, inclusive only if both are.
pub open spec fn spec_intersect_bound_end(a: Option<Bound>, b: Option<Bound>) -> Option<Bound> {
    match (a, b) {
        (None, x) => x,
        (x, None) => x,
        (Some(x), Some(y)) => if at(x) == at(y) {
            Some(Bound { timestamp: x.timestamp, inclusive: x.inclusive && y.inclusive })
        } else if at(x) < at(y) {
            Some(x)
        } else {
            Some(y)
        },
    }
}

/// The outer of two bounds: the lesser when `pick_lesser`, else the greater; no bound wins;
/// at the same instant, inclusive if either is.
pub open spec fn spec_select_bound(a: Option<Bound>, b: Option<Bound>, pick_lesser: bool) -> Option<
    Bound,
> {
    match (a, b) {
        (Some(x), Some(y)) => if at(x) == at(y) {
            Some(Bound { timestamp: x.timestamp, inclusive: x.inclusive || y.inclusive })
        } else if at(x) < at(y) {
            Some(if pick_lesser { x } else { y })
        } else {
            Some(if pick_lesser { y } else { x })
        },
        _ => None,
    }
}

/// Two ranges overlap: neither is never, and each starts before the other ends.
pub open spec fn spec_overlaps(a: TimeRange, b: TimeRange) -> bool {
    match (a, b) {
        (TimeRange::Range { start: s1, end: e1 }, TimeRange::Range { start: s2, end: e2 }) => {
            spec_start_before_end(s1, e2) && spec_start_before_end(s2, e1)
        },
        _ => false,
    }
}

/// The bounding union (hull) of two ranges; never is the identity.
pub open spec fn spec_union(a: TimeRange, b: TimeRange) -> TimeRange {
    match (a, b) {
        (TimeRange::Never, x) => x,
        (x, TimeRange::Never) => x,
        (TimeRange::Range { start: s1, end: e1 }, TimeRange::Range { start: s2, end: e2 }) => {
            TimeRange::Range {
                start: spec_select_bound(s1, s2, true),
                end: spec_select_bound(e1, e2, false),
            }
        },
    }
}

/// The intersection: latest start and earliest end, or never when they do not meet.
pub open spec fn spec_intersect(a: TimeRange, b: TimeRange) -> TimeRange {
    match (a, b) {
        (TimeRange::Range { start: s1, end: e1 }, TimeRange::Range { start: s2, end: e2 }) => {
            let start = spec_intersect_bound_start(s1, s2);
            let end = spec_intersect_bound_end(e1, e2);
            if !spec_start_before_end(start, end) {
                TimeRange::Never
            } else {
                TimeRange::Range { start, end }
            }
        },
        _ => TimeRange::Never,
    }
}

/// A range in the form that the notation reads back: never, or bounds that meet.
pub open spec fn well_formed(tr: TimeRange) -> bool {
    match tr {
        TimeRange::Never => true,
        TimeRange::Range { start, end } => spec_start_before_end(start, end),
    }
}

/// Error for a malformed time range text, with a description.
#[derive(Debug, Clone, PartialEq)]
pub struct TimeRangeParseError(String);

impl View for TimeRangeParseError {
    type V = Seq<char>;

    closed spec fn view(&self) -> Seq<char> {
        self.0@
    }
}

impl TimeRangeParseError {
    /// The description of what was wrong.
    pub fn message(&self) -> (r: &str)
        ensures
            r@ == self@,
    {
        self.0.as_str()
    }

    /// The error as shown to people: `invalid timerange: ` and the description.
    pub fn to_string(&self) -> (r: String)
        ensures
            r@ == "invalid timerange: "@ + self@,
    {
        String::from_str("invalid timerange: ").concat(self.0.as_str())
    }
}

/// The later start bound.
pub fn intersect_bound_start(a: &Option<Bound>, b: &Option<Bound>) -> (r: Option<Bound>)
    ensures
        r == spec_intersect_bound_start(*a, *b),
{
    match (a, b) {
        (None, x) => *x,
        (x, None) => *x,
        (Some(x), Some(y)) => {
            if x.timestamp.nanos == y.timestamp.nanos {
                Some(Bound { timestamp: x.timestamp, inclusive: x.inclusive && y.inclusive })
            } else if x.timestamp.nanos < y.timestamp.nanos {
                Some(*y)
            } else {
                Some(*x)
            }
        },
    }
}

/// The earlier end bound.
pub fn intersect_bound_end(a: &Option<Bound>, b: &Option<Bound>) -> (r: Option<Bound>)
    ensures
        r == spec_intersect_bound_end(*a, *b),
{
    match (a, b) {
        (None, x) => *x,
        (x, None) => *x,
        (Some(x), Some(y)) => {
            if x.timestamp.nanos == y.timestamp.nanos {
                Some(Bound { timestamp: x.timestamp, inclusive: x.inclusive && y.inclusive })
            } else if x.timestamp.nanos < y.timestamp.nanos {
                Some(*x)
            } else {
                Some(*y)
            }
        },
    }
}

/// True if the start bound comes before the end bound (they can overlap).
pub fn start_before_end(start: &Option<Bound>, end: &Option<Bound>) -> (r: bool)
    ensures
        r == spec_start_before_end(*start, *end),
{
    match (start, end) {
        (Some(s), Some(e)) => {
            if s.timestamp.nanos < e.timestamp.nanos {
                true
            } else if s.timestamp.nanos > e.timestamp.nanos {
                false
            } else {
                s.inclusive && e.inclusive
            }
        },
        _ => true,
    }
}

/// The outer of two bounds (the lesser when `pick_lesser`).
pub fn select_bound(a: &Option<Bound>, b: &Option<Bound>, pick_lesser: bool) -> (r: Option<Bound>)
    ensures
        r == spec_select_bound(*a, *b, pick_lesser),
{
    match (a, b) {
        (Some(x), Some(y)) => {
            if x.timestamp.nanos == y.timestamp.nanos {
                Some(Bound { timestamp: x.timestamp, inclusive: x.inclusive || y.inclusive })
            } else if x.timestamp.nanos < y.timestamp.nanos {
                Some(
                    if pick_lesser {
                        *x
                    } else {
                        *y
                    },
                )
            } else {
                Some(
                    if pick_lesser {
                        *y
                    } else {
                        *x
                    },
                )
            }
        },
        _ => None,
    }
}

impl TimeRange {
    pub fn never() -> (r: Self)
        ensures
            r == TimeRange::Never,
    {
        TimeRange::Never
    }

    pub fn eternity() -> (r: Self)
        ensures
            r == (TimeRange::Range { start: None, end: None }),
    {
        TimeRange::Range { start: None, end: None }
    }

    pub fn is_eternity(&self) -> (r: bool)
        ensures
            r == (*self == TimeRange::Range { start: None, end: None }),
    {
        match self {
            TimeRange::Range { start: None, end: None } => true,
            _ => false,
        }
    }

    pub fn is_never(&self) -> (r: bool)
        ensures
            r == (*self == TimeRange::Never),
    {
        match self {
            TimeRange::Never => true,
            _ => false,
        }
    }

    /// Check if this range overlaps with another.
    pub fn overlaps(&self, other: &TimeRange) -> (r: bool)
        ensures
            r == spec_overlaps(*self, *other),
    {
        match (self, other) {
            (TimeRange::Range { start: s1, end: e1 }, TimeRange::Range { start: s2, end: e2 }) => {
                start_before_end(s1, e2) && start_before_end(s2, e1)
            },
            _ => false,
        }
    }

    /// True if this range completely covers `other` (every point in other is in self).
    pub fn covers(&self, other: &TimeRange) -> (r: bool)
        ensures
            r == (spec_intersect(*self, *other) == *other),
    {
        let i = self.intersect(other);
        i == *other
    }

    /// The bounding union of two ranges.
    pub fn union(&self, other: &TimeRange) -> (r: TimeRange)
        ensures
            r == spec_union(*self, *other),
    {
        match (self, other) {
            (TimeRange::Never, x) => *x,
            (x, TimeRange::Never) => *x,
            (TimeRange::Range { start: s1, end: e1 }, TimeRange::Range { start: s2, end: e2 }) => {
                TimeRange::Range { start: select_bound(s1, s2, true), end: select_bound(e1, e2, false) }
            },
        }
    }

    /// The intersection of two ranges: latest start, earliest end.
    pub fn intersect(&self, other: &TimeRange) -> (r: TimeRange)
        ensures
            r == spec_intersect(*self, *other),
    {
        match (self, other) {
            (TimeRange::Range { start: s1, end: e1 }, TimeRange::Range { start: s2, end: e2 }) => {
                let start = intersect_bound_start(s1, s2);
                let end = intersect_bound_end(e1, e2);
                if !start_before_end(&start, &end) {
                    TimeRange::Never
                } else {
                    TimeRange::Range { start, end }
                }
            },
            _ => TimeRange::Never,
        }
    }

    /// Check if this range contains a specific timestamp.
    pub fn contains(&self, ts: &Timestamp) -> (r: bool)
        ensures
            r == range_contains(*self, ts.nanos as int),
    {
        match self {
            TimeRange::Never => false,
            TimeRange::Range { start, end } => {
                let after = match start {
                    None => true,
                    Some(b) => if b.inclusive {
                        ts.nanos >= b.timestamp.nanos
                    } else {
                        ts.nanos > b.timestamp.nanos
                    },
                };
                let before = match end {
                    None => true,
                    Some(b) => if b.inclusive {
                        ts.nanos <= b.timestamp.nanos
                    } else {
                        ts.nanos < b.timestamp.nanos
                    },
                };
                after && before
            },
        }
    }
}

/// A nanosecond lies in the intersection of two ranges exactly when it lies in both.
pub proof fn lemma_intersect_contains(a: TimeRange, b: TimeRange, t: int)
    ensures
        range_contains(spec_intersect(a, b), t) == (range_contains(a, t) && range_contains(b, t)),
{
}

/// The union of two ranges contains every nanosecond of either.
pub proof fn lemma_union_contains(a: TimeRange, b: TimeRange, t: int)
    ensures
        range_contains(a, t) || range_contains(b, t) ==> range_contains(spec_union(a, b), t),
{
}

/// Never is the identity of union and absorbs intersection.
pub proof fn lemma_never_identity(a: TimeRange)
    ensures
        spec_union(a, TimeRange::Never) == a,
        spec_union(TimeRange::Never, a) == a,
        spec_intersect(a, TimeRange::Never) == TimeRange::Never,
        !spec_overlaps(a, TimeRange::Never),
{
}

/// Overlap is symmetric.
pub proof fn lemma_overlaps_symmetric(a: TimeRange, b: TimeRange)
    ensures
        spec_overlaps(a, b) == spec_overlaps(b, a),
{
}

/// Ranges that share a nanosecond overlap.
pub proof fn lemma_shared_point_overlaps(a: TimeRange, b: TimeRange, t: int)
    requires
        range_contains(a, t),
        range_contains(b, t),
    ensures
        spec_overlaps(a, b),
{
}

/// Eternity overlaps every range but never.
pub proof fn lemma_eternity_overlaps(a: TimeRange)
    ensures
        spec_overlaps(TimeRange::Range { start: None, end: None }, a) == (a != TimeRange::Never),
{
}

/// A range that covers another contains every nanosecond of it.
pub proof fn lemma_covers_contains(a: TimeRange, b: TimeRange, t: int)
    requires
        spec_intersect(a, b) == b,
        range_contains(b, t),
    ensures
        range_contains(a, t),
{
    lemma_intersect_contains(a, b, t);
}

/// Intersections are well formed, and unions of well-formed ranges are.
pub proof fn lemma_results_well_formed(a: TimeRange, b: TimeRange)
    ensures
        well_formed(spec_intersect(a, b)),
        well_formed(a) && well_formed(b) ==> well_formed(spec_union(a, b)),
{
}

/// `[` or `(` for an inclusive or exclusive start.
pub open spec fn open_bracket(inclusive: bool) -> char {
    if inclusive { '[' } else { '(' }
}

/// `]` or `)` for an inclusive or exclusive end.
pub open spec fn close_bracket(inclusive: bool) -> char {
    if inclusive { ']' } else { ')' }
}

/// The notation of a range.
pub open spec fn timerange_text(tr: TimeRange) -> Seq<char> {
    match tr {
        TimeRange::Never => seq!['(', ')'],
        TimeRange::Range { start, end } => match (start, end) {
            (None, None) => seq!['_'],
            (Some(s), None) => seq![open_bracket(s.inclusive)] + timestamp_text(at(s)) + seq!['_'],
            (None, Some(e)) => seq!['_'] + timestamp_text(at(e)) + seq![close_bracket(e.inclusive)],
            (Some(s), Some(e)) => if at(s) == at(e) && s.inclusive && e.inclusive {
                seq!['['] + timestamp_text(at(s)) + seq![']']
            } else {
                seq![open_bracket(s.inclusive)] + timestamp_text(at(s)) + seq!['_']
                    + timestamp_text(at(e)) + seq![close_bracket(e.inclusive)]
            },
        },
    }
}

pub open spec fn is_bracket(c: char) -> bool {
    c == '[' || c == ']' || c == '(' || c == ')'
}

/// The bound that a (non-empty) timestamp text and bracket flag denote.
pub open spec fn spec_bound(ts: Seq<char>, inclusive: bool) -> Bound {
    Bound { timestamp: Timestamp { nanos: spec_parse_timestamp(ts)->0 as i128 }, inclusive }
}

/// The range of a bounded text `start_end`; an empty side is an open end.
pub open spec fn spec_parse_pair(
    start_str: Seq<char>,
    end_str: Seq<char>,
    start_inc: bool,
    end_inc: bool,
) -> Option<TimeRange> {
    if start_str.len() > 0 && spec_parse_timestamp(start_str) is None {
        None
    } else if end_str.len() > 0 && spec_parse_timestamp(end_str) is None {
        None
    } else {
        let start = if start_str.len() == 0 {
            None
        } else {
            Some(spec_bound(start_str, start_inc))
        };
        let end = if end_str.len() == 0 {
            None
        } else {
            Some(spec_bound(end_str, end_inc))
        };
        if spec_start_before_end(start, end) {
            Some(TimeRange::Range { start, end })
        } else {
            Some(TimeRange::Never)
        }
    }
}

/// The range of a single instant; exclusive brackets make it never.
pub open spec fn spec_parse_instant(content: Seq<char>, start_inc: bool, end_inc: bool) -> Option<
    TimeRange,
> {
    if content.len() == 0 || spec_parse_timestamp(content) is None {
        None
    } else if !start_inc || !end_inc {
        Some(TimeRange::Never)
    } else {
        Some(
            TimeRange::Range {
                start: Some(spec_bound(content, true)),
                end: Some(spec_bound(content, true)),
            },
        )
    }
}

/// The range of the text between the brackets.
pub open spec fn spec_parse_content(content: Seq<char>, start_inc: bool, end_inc: bool) -> Option<
    TimeRange,
> {
    match text::first_index(content, '_') {
        Some(sep) => spec_parse_pair(content.take(sep), content.skip(sep + 1), start_inc, end_inc),
        None => spec_parse_instant(content, start_inc, end_inc),
    }
}

/// What is wrong with a bounded text `start_end` that does not parse: the
/// first side that is not a timestamp, with the timestamp error as shown.
pub open spec fn spec_pair_error(start_str: Seq<char>, end_str: Seq<char>) -> Seq<char> {
    if start_str.len() > 0 && spec_parse_timestamp(start_str) is None {
        "start: "@ + ("invalid timestamp: "@ + spec_timestamp_error(start_str))
    } else {
        "end: "@ + ("invalid timestamp: "@ + spec_timestamp_error(end_str))
    }
}

/// What is wrong with an instant text that does not parse.
pub open spec fn spec_instant_error(content: Seq<char>) -> Seq<char> {
    if content.len() == 0 {
        "empty content with no separator"@
    } else {
        "invalid timestamp: "@ + spec_timestamp_error(content)
    }
}

/// What is wrong with the text between the brackets, when it does not parse.
pub open spec fn spec_content_error(content: Seq<char>) -> Seq<char> {
    match text::first_index(content, '_') {
        Some(sep) => spec_pair_error(content.take(sep), content.skip(sep + 1)),
        None => spec_instant_error(content),
    }
}

/// What is wrong with a range text that does not parse.
pub open spec fn spec_timerange_error(s: Seq<char>) -> Seq<char> {
    if s.len() == 0 {
        "empty string"@
    } else {
        let pos: int = if s[0] == '[' || s[0] == '(' { 1 } else { 0 };
        let content_end: int = if s.last() == ']' || s.last() == ')' {
            s.len() - 1
        } else {
            s.len() as int
        };
        spec_content_error(s.subrange(pos, content_end))
    }
}

/// The text holds only brackets.
pub open spec fn only_brackets(s: Seq<char>) -> bool {
    forall|i: int| 0 <= i < s.len() ==> #[trigger] is_bracket(s[i])
}

/// The range that a text denotes, if it is well formed.
///
/// Texts made only of brackets are never. Otherwise an optional opening bracket,
/// then either `start_end` (each side may be empty for an open end) or a single
/// instant, then an optional closing bracket; a missing bracket counts as inclusive.
/// Degenerate bounds (end before start, or equal with an exclusive side) give never.
pub open spec fn spec_parse_timerange(s: Seq<char>) -> Option<TimeRange> {
    if s.len() == 0 {
        None
    } else if only_brackets(s) {
        Some(TimeRange::Never)
    } else {
        let pos: int = if s[0] == '[' || s[0] == '(' { 1 } else { 0 };
        let content_end: int = if s.last() == ']' || s.last() == ')' {
            s.len() - 1
        } else {
            s.len() as int
        };
        spec_parse_content(s.subrange(pos, content_end), s[0] != '(', s.last() != ')')
    }
}

fn parse_pair(v: &Vec<char>, lo: usize, sep_at: usize, hi: usize, start_inc: bool, end_inc: bool) -> (r: Result<
    TimeRange,
    TimeRangeParseError,
>)
    requires
        lo <= sep_at < hi <= v@.len(),
    ensures
        match r {
            Ok(tr) => spec_parse_pair(
                v@.subrange(lo as int, sep_at as int),
                v@.subrange(sep_at + 1, hi as int),
                start_inc,
                end_inc,
            ) == Some(tr),
            Err(e) => spec_parse_pair(
                v@.subrange(lo as int, sep_at as int),
                v@.subrange(sep_at + 1, hi as int),
                start_inc,
                end_inc,
            ) is None && e@ == spec_pair_error(
                v@.subrange(lo as int, sep_at as int),
                v@.subrange(sep_at + 1, hi as int),
            ),
        },
{
    let start = if sep_at == lo {
        None
    } else {
        match parse_timestamp_in(v, lo, sep_at) {
            Ok(t) => Some(Bound { timestamp: t, inclusive: start_inc }),
            Err(e) => {
                return Err(TimeRangeParseError(String::from_str("start: ").concat(e.to_string().as_str())));
            },
        }
    };
    let end = if sep_at + 1 == hi {
        None
    } else {
        match parse_timestamp_in(v, sep_at + 1, hi) {
            Ok(t) => Some(Bound { timestamp: t, inclusive: end_inc }),
            Err(e) => {
                return Err(TimeRangeParseError(String::from_str("end: ").concat(e.to_string().as_str())));
            },
        }
    };
    if start_before_end(&start, &end) {
        Ok(TimeRange::Range { start, end })
    } else {
        Ok(TimeRange::Never)
    }
}

fn parse_instant(v: &Vec<char>, lo: usize, hi: usize, start_inc: bool, end_inc: bool) -> (r: Result<
    TimeRange,
    TimeRangeParseError,
>)
    requires
        lo <= hi <= v@.len(),
    ensures
        match r {
            Ok(tr) => spec_parse_instant(v@.subrange(lo as int, hi as int), start_inc, end_inc)
                == Some(tr),
            Err(e) => spec_parse_instant(v@.subrange(lo as int, hi as int), start_inc, end_inc) is None
                && e@ == spec_instant_error(v@.subrange(lo as int, hi as int)),
        },
{
    if lo == hi {
        return Err(TimeRangeParseError(String::from_str("empty content with no separator")));
    }
    match parse_timestamp_in(v, lo, hi) {
        Err(e) => Err(TimeRangeParseError(e.to_string())),
        Ok(t) => {
            if !start_inc || !end_inc {
                Ok(TimeRange::Never)
            } else {
                Ok(
                    TimeRange::Range {
                        start: Some(Bound { timestamp: t, inclusive: true }),
                        end: Some(Bound { timestamp: t, inclusive: true }),
                    },
                )
            }
        },
    }
}

fn parse_content(v: &Vec<char>, lo: usize, hi: usize, start_inc: bool, end_inc: bool) -> (r: Result<
    TimeRange,
    TimeRangeParseError,
>)
    requires
        lo <= hi <= v@.len(),
    ensures
        match r {
            Ok(tr) => spec_parse_content(v@.subrange(lo as int, hi as int), start_inc, end_inc)
                == Some(tr),
            Err(e) => spec_parse_content(v@.subrange(lo as int, hi as int), start_inc, end_inc) is None
                && e@ == spec_content_error(v@.subrange(lo as int, hi as int)),
        },
{
    let ghost content = v@.subrange(lo as int, hi as int);
    match find_char(v, lo, '_') {
        Some(sep_at) if sep_at < hi => {
            let ghost sep = sep_at - lo;
            proof {
                assert(text::is_first_index(content, '_', sep)) by {
                    assert(content[sep] == v@[sep_at as int]);
                    assert(v@.skip(lo as int)[sep] == v@[sep_at as int]);
                    assert forall|j: int| 0 <= j < sep implies content[j] != '_' by {
                        assert(content[j] == v@[lo + j]);
                        assert(v@.skip(lo as int)[j] == v@[lo + j]);
                    }
                }
                text::lemma_first_index(content, '_', sep);
                assert(content.take(sep) =~= v@.subrange(lo as int, sep_at as int));
                assert(content.skip(sep + 1) =~= v@.subrange(sep_at + 1, hi as int));
            }
            parse_pair(v, lo, sep_at, hi, start_inc, end_inc)
        },
        _ => {
            proof {
                assert forall|j: int| 0 <= j < content.len() implies content[j] != '_' by {
                    assert(content[j] == v@[lo + j]);
                }
                text::lemma_first_index_none(content, '_');
            }
            parse_instant(v, lo, hi, start_inc, end_inc)
        },
    }
}

impl TimeRange {
    /// The notation of this range.
    pub fn to_string(&self) -> (r: String)
        ensures
            r@ == timerange_text(*self),
    {
        let mut v: Vec<char> = Vec::new();
        match self {
            TimeRange::Never => {
                v.push('(');
                v.push(')');
            },
            TimeRange::Range { start, end } => match (start, end) {
                (None, None) => {
                    v.push('_');
                },
                (Some(s), None) => {
                    v.push(if s.inclusive { '[' } else { '(' });
                    s.timestamp.push_text(&mut v);
                    v.push('_');
                },
                (None, Some(e)) => {
                    v.push('_');
                    e.timestamp.push_text(&mut v);
                    v.push(if e.inclusive { ']' } else { ')' });
                },
                (Some(s), Some(e)) => {
                    if s.timestamp.nanos == e.timestamp.nanos && s.inclusive && e.inclusive {
                        v.push('[');
                        s.timestamp.push_text(&mut v);
                        v.push(']');
                    } else {
                        v.push(if s.inclusive { '[' } else { '(' });
                        s.timestamp.push_text(&mut v);
                        v.push('_');
                        e.timestamp.push_text(&mut v);
                        v.push(if e.inclusive { ']' } else { ')' });
                    }
                },
            },
        }
        assert(v@ =~= timerange_text(*self));
        string_of(v.as_slice())
    }

    /// Parses the range notation.
    pub fn parse(s: &str) -> (r: Result<TimeRange, TimeRangeParseError>)
        ensures
            match r {
                Ok(tr) => spec_parse_timerange(s@) == Some(tr),
                Err(e) => spec_parse_timerange(s@) is None && e@ == spec_timerange_error(s@),
            },
    {
        let v = chars_of(s);
        let n = v.len();
        if n == 0 {
            return Err(TimeRangeParseError(String::from_str("empty string")));
        }
        let mut i: usize = 0;
        while i < n && (v[i] == '[' || v[i] == ']' || v[i] == '(' || v[i] == ')')
            invariant
                n == v@.len(),
                i <= n,
                forall|j: int| 0 <= j < i ==> #[trigger] is_bracket(v@[j]),
            decreases n - i,
        {
            i = i + 1;
        }
        assert(v@ == s@);
        if i == n {
            return Ok(TimeRange::Never);
        }
        assert(!is_bracket(v@[i as int]));
        let pos: usize = if v[0] == '[' || v[0] == '(' { 1 } else { 0 };
        let content_end: usize = if v[n - 1] == ']' || v[n - 1] == ')' { n - 1 } else { n };
        assert(v@.last() == v@[n - 1]);
        if pos > content_end {
            assert(n == 1 && is_bracket(v@[0]));
            return Ok(TimeRange::Never);
        }
        parse_content(&v, pos, content_end, v[0] != '(', v[n - 1] != ')')
    }
}

impl std::str::FromStr for TimeRange {
    type Err = TimeRangeParseError;

    fn from_str(s: &str) -> (r: Result<Self, Self::Err>)
        ensures
            match r {
                Ok(tr) => spec_parse_timerange(s@) == Some(tr),
                Err(e) => spec_parse_timerange(s@) is None && e@ == spec_timerange_error(s@),
            },
    {
        TimeRange::parse(s)
    }
}

/// Both bounds of a range show their seconds exactly (they fit an `i64`).
pub open spec fn bounds_fit_text(tr: TimeRange) -> bool {
    match tr {
        TimeRange::Never => true,
        TimeRange::Range { start, end } => {
            &&& (start matches Some(b) ==> i64::MIN <= spec_secs(at(b)) <= i64::MAX)
            &&& (end matches Some(b) ==> i64::MIN <= spec_secs(at(b)) <= i64::MAX)
        },
    }
}

/// Every range that the notation yields is well formed.
pub proof fn lemma_parsed_well_formed(s: Seq<char>)
    requires
        spec_parse_timerange(s) is Some,
    ensures
        well_formed(spec_parse_timerange(s)->0),
{
}

proof fn lemma_bound_text(b: Bound)
    requires
        i64::MIN <= spec_secs(at(b)) <= i64::MAX,
    ensures
        spec_parse_timestamp(timestamp_text(at(b))) == Some(at(b)),
        spec_bound(timestamp_text(at(b)), b.inclusive) == b,
        forall|j: int|
            0 <= j < timestamp_text(at(b)).len() ==> {
                let c = #[trigger] timestamp_text(at(b))[j];
                c != '_' && !is_bracket(c)
            },
        timestamp_text(at(b)).len() >= 3,
{
    lemma_timestamp_text_parses(b.timestamp.nanos);
    lemma_timestamp_text_chars(at(b));
    assert forall|j: int| 0 <= j < timestamp_text(at(b)).len() implies {
        let c = #[trigger] timestamp_text(at(b))[j];
        c != '_' && !is_bracket(c)
    } by {
        let c = timestamp_text(at(b))[j];
        assert(text::is_digit(c) || c == '-' || c == ':');
    }
}

/// Reading back the notation of a well-formed range gives the range (when the
/// seconds of its bounds fit the notation's `i64`).
pub proof fn lemma_timerange_text_parses(tr: TimeRange)
    requires
        well_formed(tr),
        bounds_fit_text(tr),
    ensures
        spec_parse_timerange(timerange_text(tr)) == Some(tr),
{
    let s = timerange_text(tr);
    match tr {
        TimeRange::Never => {
            assert(only_brackets(s));
        },
        TimeRange::Range { start, end } => {
            match (start, end) {
                (None, None) => {
                    assert(!is_bracket(s[0]));
                    let content = s.subrange(0, 1);
                    assert(content =~= seq!['_']);
                    text::lemma_first_index(content, '_', 0);
                    assert(content.take(0) =~= Seq::<char>::empty());
                    assert(content.skip(1) =~= Seq::<char>::empty());
                },
                (Some(b), None) => {
                    lemma_bound_text(b);
                    let t = timestamp_text(at(b));
                    assert(!is_bracket(s[1])) by {
                        assert(s[1] == t[0]);
                    }
                    assert(s.last() == '_');
                    let content = s.subrange(1, s.len() as int);
                    assert(content =~= t + seq!['_']);
                    assert(text::is_first_index(content, '_', t.len() as int)) by {
                        assert forall|j: int| 0 <= j < t.len() implies content[j] != '_' by {
                            assert(content[j] == t[j]);
                        }
                    }
                    text::lemma_first_index(content, '_', t.len() as int);
                    assert(content.take(t.len() as int) =~= t);
                    assert(content.skip(t.len() as int + 1) =~= Seq::<char>::empty());
                },
                (None, Some(e)) => {
                    lemma_bound_text(e);
                    let t = timestamp_text(at(e));
                    assert(!is_bracket(s[0]));
                    assert(s.last() == close_bracket(e.inclusive));
                    let content = s.subrange(0, s.len() - 1);
                    assert(content =~= seq!['_'] + t);
                    text::lemma_first_index(content, '_', 0);
                    assert(content.take(0) =~= Seq::<char>::empty());
                    assert(content.skip(1) =~= t);
                },
                (Some(b), Some(e)) => {
                    lemma_bound_text(b);
                    lemma_bound_text(e);
                    let t1 = timestamp_text(at(b));
                    let t2 = timestamp_text(at(e));
                    assert(!is_bracket(s[1])) by {
                        assert(s[1] == t1[0]);
                    }
                    let content = s.subrange(1, s.len() - 1);
                    if at(b) == at(e) && b.inclusive && e.inclusive {
                        assert(content =~= t1);
                        assert forall|j: int| 0 <= j < content.len() implies content[j] != '_' by {
                            assert(content[j] == t1[j]);
                        }
                        text::lemma_first_index_none(content, '_');
                        assert(b.timestamp == e.timestamp);
                    } else {
                        assert(content =~= t1 + seq!['_'] + t2);
                        assert(text::is_first_index(content, '_', t1.len() as int)) by {
                            assert forall|j: int| 0 <= j < t1.len() implies content[j] != '_' by {
                                assert(content[j] == t1[j]);
                            }
                        }
                        text::lemma_first_index(content, '_', t1.len() as int);
                        assert(content.take(t1.len() as int) =~= t1);
                        assert(content.skip(t1.len() as int + 1) =~= t2);
                    }
                },
            }
        },
    }
}

} // verus!
