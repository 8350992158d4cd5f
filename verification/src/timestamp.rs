//! Nanosecond timestamps in the TAMS `secs:nanos` notation.
use vstd::prelude::*;

use crate::text;
use crate::text::{
    all_digits_in, chars_of, digit_of, find_char, push_int_text, push_nat_text, string_of,
};

verus! {

pub const NANOS_PER_SEC: i128 = 1_000_000_000;

/// Nanosecond-precision timestamp stored as a single `i128`.
///
/// The text form follows the TAMS spec: `"secs:nanos"` where nanos is
/// always 0-999999999 and seconds may be negative.
#[derive(Debug, Clone, Copy, PartialEq, Eq, PartialOrd, Ord, Hash, Structural)]
pub struct Timestamp {
    pub nanos: i128,
}

/// Whole seconds of a nanosecond count (rounded towards minus infinity).
pub open spec fn spec_secs(nanos: int) -> int {
    nanos / 1_000_000_000
}

/// Nanoseconds past the whole second (always 0 to 999999999).
pub open spec fn spec_subsec(nanos: int) -> int {
    nanos % 1_000_000_000
}

/// The text of a timestamp: the seconds as an `i64`, a colon, the sub-second nanoseconds.
pub open spec fn timestamp_text(nanos: int) -> Seq<char> {
    text::int_text(spec_secs(nanos) as i64 as int) + seq![':'] + text::nat_text(spec_subsec(nanos) as nat)
}

/// The value that a timestamp text denotes, if it is well formed and fits an `i128`.
///
/// Seconds: an optional `-` then `0` or digits without a leading zero.
/// Nanoseconds: `0` or at most nine digits without a leading zero.
pub open spec fn spec_parse_timestamp(s: Seq<char>) -> Option<int> {
    match text::first_index(s, ':') {
        None => None,
        Some(c) => {
            let secs_str = s.take(c);
            let nanos_str = s.skip(c + 1);
            let neg = secs_str.len() > 0 && secs_str[0] == '-';
            let secs_abs = if neg { secs_str.skip(1) } else { secs_str };
            if !text::canonical_digits(secs_abs) || !text::canonical_digits(nanos_str) || text::digits_value(
                nanos_str,
            ) > 999_999_999 {
                None
            } else {
                let secs = if neg {
                    -(text::digits_value(secs_abs) as int)
                } else {
                    text::digits_value(secs_abs) as int
                };
                let v = secs * 1_000_000_000 + text::digits_value(nanos_str);
                if i128::MIN <= v <= i128::MAX {
                    Some(v)
                } else {
                    None
                }
            }
        },
    }
}

/// The largest magnitude of seconds that a signed 128-bit count reads, by sign.
pub open spec fn secs_limit(neg: bool) -> int {
    if neg {
        0x8000_0000_0000_0000_0000_0000_0000_0000
    } else {
        0x7fff_ffff_ffff_ffff_ffff_ffff_ffff_ffff
    }
}

/// The description of a number too far from zero, by sign.
pub open spec fn too_far_text(neg: bool) -> Seq<char> {
    if neg {
        "': number too small to fit in target type"@
    } else {
        "': number too large to fit in target type"@
    }
}

/// What is wrong with a timestamp text that does not parse, checked in this
/// order: the colon, the seconds' shape, the nanoseconds' shape, seconds
/// beyond a signed 128-bit count, nanoseconds beyond one, nanoseconds of a
/// whole second or more; a count of nanoseconds that does not fit is
/// described as a seconds overflow.
pub open spec fn spec_timestamp_error(s: Seq<char>) -> Seq<char> {
    match text::first_index(s, ':') {
        None => "missing colon in '"@ + s + "'"@,
        Some(c) => {
            let secs_str = s.take(c);
            let nanos_str = s.skip(c + 1);
            let neg = secs_str.len() > 0 && secs_str[0] == '-';
            let secs_abs = if neg { secs_str.skip(1) } else { secs_str };
            let secs_overflow = "seconds overflow '"@ + secs_str + too_far_text(neg);
            if secs_abs.len() == 0 || !text::all_digits(secs_abs) {
                "invalid seconds: '"@ + secs_str + "'"@
            } else if secs_abs.len() > 1 && secs_abs[0] == '0' {
                "leading zeros in seconds: '"@ + secs_str + "'"@
            } else if nanos_str.len() == 0 || !text::all_digits(nanos_str) {
                "invalid nanoseconds: '"@ + nanos_str + "'"@
            } else if nanos_str.len() > 1 && nanos_str[0] == '0' {
                "leading zeros in nanoseconds: '"@ + nanos_str + "'"@
            } else if text::digits_value(secs_abs) > secs_limit(neg) {
                secs_overflow
            } else if text::digits_value(nanos_str) > 0x7fff_ffff_ffff_ffff_ffff_ffff_ffff_ffff {
                "nanoseconds overflow '"@ + nanos_str + too_far_text(false)
            } else if text::digits_value(nanos_str) > 999_999_999 {
                "nanoseconds out of range: "@ + nanos_str
            } else {
                secs_overflow
            }
        },
    }
}

/// Error for a malformed timestamp text, with a description.
#[derive(Debug, Clone, PartialEq)]
pub struct TimestampParseError(String);

impl View for TimestampParseError {
    type V = Seq<char>;

    closed spec fn view(&self) -> Seq<char> {
        self.0@
    }
}

impl TimestampParseError {
    /// The description of what was wrong.
    pub fn message(&self) -> (r: &str)
        ensures
            r@ == self@,
    {
        self.0.as_str()
    }

    /// The error as shown to people: `invalid timestamp: ` and the description.
    pub fn to_string(&self) -> (r: String)
        ensures
            r@ == "invalid timestamp: "@ + self@,
    {
        String::from_str("invalid timestamp: ").concat(self.0.as_str())
    }
}

impl Timestamp {
    /// Whole seconds, truncated to an `i64`.
    pub fn secs(&self) -> (r: i64)
        ensures
            r == spec_secs(self.nanos as int) as i64,
    {
        let q = self.nanos.checked_div_euclid(NANOS_PER_SEC).unwrap();
        q as i64
    }

    /// Nanoseconds past the whole second.
    pub fn subsec_nanos(&self) -> (r: u32)
        ensures
            r == spec_subsec(self.nanos as int),
    {
        let r = self.nanos.checked_rem_euclid(NANOS_PER_SEC).unwrap();
        r as u32
    }

    pub fn new(nanos: i128) -> (r: Self)
        ensures
            r.nanos == nanos,
    {
        Self { nanos }
    }

    pub fn from_secs_nanos(secs: i64, nanos: u32) -> (r: Self)
        ensures
            r.nanos == secs * 1_000_000_000 + nanos,
    {
        Self { nanos: secs as i128 * NANOS_PER_SEC + nanos as i128 }
    }

    /// The `secs:nanos` text of this timestamp.
    pub fn to_string(&self) -> (s: String)
        ensures
            s@ == timestamp_text(self.nanos as int),
    {
        let mut v: Vec<char> = Vec::new();
        self.push_text(&mut v);
        string_of(v.as_slice())
    }

    /// Appends the `secs:nanos` text of this timestamp to `out`.
    pub fn push_text(&self, out: &mut Vec<char>)
        ensures
            final(out)@ == old(out)@ + timestamp_text(self.nanos as int),
    {
        let secs = self.secs();
        push_int_text(secs as i128, out);
        out.push(':');
        let sub = self.subsec_nanos();
        push_nat_text(sub as u128, out);
        assert(out@ =~= old(out)@ + timestamp_text(self.nanos as int));
    }

    /// Parses the `secs:nanos` notation.
    pub fn parse(s: &str) -> (r: Result<Timestamp, TimestampParseError>)
        ensures
            match r {
                Ok(t) => spec_parse_timestamp(s@) == Some(t.nanos as int),
                Err(e) => spec_parse_timestamp(s@) is None && e@ == spec_timestamp_error(s@),
            },
    {
        let v = chars_of(s);
        let r = parse_timestamp_in(&v, 0, v.len());
        assert(v@.subrange(0, v@.len() as int) =~= s@);
        r
    }
}

/// The characters `v[lo..hi]` as a vector.
pub fn copy_range(v: &Vec<char>, lo: usize, hi: usize) -> (r: Vec<char>)
    requires
        lo <= hi <= v@.len(),
    ensures
        r@ == v@.subrange(lo as int, hi as int),
{
    let mut r: Vec<char> = Vec::new();
    let mut i = lo;
    while i < hi
        invariant
            lo <= i <= hi <= v@.len(),
            r@ == v@.subrange(lo as int, i as int),
        decreases hi - i,
    {
        r.push(v[i]);
        i = i + 1;
        assert(r@ =~= v@.subrange(lo as int, i as int));
    }
    r
}

fn parse_error(prefix: &str, v: &Vec<char>, lo: usize, hi: usize, suffix: &str) -> (r: TimestampParseError)
    requires
        lo <= hi <= v@.len(),
    ensures
        r@ == prefix@ + v@.subrange(lo as int, hi as int) + suffix@,
{
    let part = copy_range(v, lo, hi);
    let text = string_of(part.as_slice());
    let msg = String::from_str(prefix).concat(text.as_str()).concat(suffix);
    TimestampParseError(msg)
}

/// A digit string's value is at least the value of any of its prefixes.
pub proof fn lemma_digits_value_prefix(s: Seq<char>, k: int)
    requires
        0 <= k <= s.len(),
    ensures
        text::digits_value(s.take(k)) <= text::digits_value(s),
    decreases s.len() - k,
{
    if k < s.len() {
        let t = s.take(k + 1);
        assert(t.drop_last() =~= s.take(k));
        lemma_digits_value_prefix(s, k + 1);
    } else {
        assert(s.take(k) =~= s);
    }
}

/// Reads the digits `v[lo..hi]` as a number, or `None` when it exceeds `bound`.
pub fn read_digits(v: &Vec<char>, lo: usize, hi: usize, bound: u128) -> (r: Option<u128>)
    requires
        lo <= hi <= v@.len(),
        text::all_digits(v@.subrange(lo as int, hi as int)),
    ensures
        match r {
            Some(n) => n == text::digits_value(v@.subrange(lo as int, hi as int)) && n <= bound,
            None => text::digits_value(v@.subrange(lo as int, hi as int)) > bound,
        },
{
    let ghost s = v@.subrange(lo as int, hi as int);
    let mut acc: u128 = 0;
    let mut i = lo;
    assert(s.take(0) =~= Seq::<char>::empty());
    while i < hi
        invariant
            lo <= i <= hi <= v@.len(),
            s == v@.subrange(lo as int, hi as int),
            text::all_digits(s),
            acc <= bound,
            acc == text::digits_value(s.take(i - lo)),
        decreases hi - i,
    {
        assert(text::is_digit(s[i - lo]));
        assert(s[i - lo] == v@[i as int]);
        let d = digit_of(v[i]);
        proof {
            let t = s.take(i - lo + 1);
            assert(t.drop_last() =~= s.take(i - lo));
            assert(t.last() == v@[i as int]);
        }
        let next = match acc.checked_mul(10) {
            Some(m) => m.checked_add(d as u128),
            None => None,
        };
        match next {
            Some(x) if x <= bound => {
                acc = x;
            },
            _ => {
                proof {
                    lemma_digits_value_prefix(s, i - lo + 1);
                }
                return None;
            },
        }
        i = i + 1;
    }
    assert(s.take(hi - lo) =~= s);
    Some(acc)
}

/// Parses the timestamp text `v[lo..hi]`.
pub fn parse_timestamp_in(v: &Vec<char>, lo: usize, hi: usize) -> (r: Result<
    Timestamp,
    TimestampParseError,
>)
    requires
        lo <= hi <= v@.len(),
    ensures
        match r {
            Ok(t) => spec_parse_timestamp(v@.subrange(lo as int, hi as int)) == Some(t.nanos as int),
            Err(e) => spec_parse_timestamp(v@.subrange(lo as int, hi as int)) is None
                && e@ == spec_timestamp_error(v@.subrange(lo as int, hi as int)),
        },
{
    let ghost s = v@.subrange(lo as int, hi as int);
    proof {
        reveal_strlit("'");
    }
    let colon = match find_char(v, lo, ':') {
        None => {
            proof {
                assert forall|j: int| 0 <= j < s.len() implies s[j] != ':' by {
                    assert(s[j] == v@[lo + j]);
                }
                text::lemma_first_index_none(s, ':');
            }
            return Err(parse_error("missing colon in '", v, lo, hi, "'"));
        },
        Some(c) => c,
    };
    if colon >= hi {
        proof {
            assert forall|j: int| 0 <= j < s.len() implies s[j] != ':' by {
                assert(s[j] == v@[lo + j]);
                assert(v@.skip(lo as int)[j] == v@[lo + j]);
            }
            text::lemma_first_index_none(s, ':');
        }
        return Err(parse_error("missing colon in '", v, lo, hi, "'"));
    }
    let ghost c = colon - lo;
    proof {
        assert(text::is_first_index(s, ':', c)) by {
            assert(s[c] == v@[colon as int]);
            assert(v@.skip(lo as int)[c] == v@[colon as int]);
            assert forall|j: int| 0 <= j < c implies s[j] != ':' by {
                assert(s[j] == v@[lo + j]);
                assert(v@.skip(lo as int)[j] == v@[lo + j]);
            }
        }
        text::lemma_first_index(s, ':', c);
    }
    let ghost secs_str = s.take(c);
    let ghost nanos_str = s.skip(c + 1);
    assert(secs_str =~= v@.subrange(lo as int, colon as int));
    assert(nanos_str =~= v@.subrange(colon + 1, hi as int));
    let neg = colon > lo && v[lo] == '-';
    let abs_lo = if neg { lo + 1 } else { lo };
    let ghost secs_abs = if neg { secs_str.skip(1) } else { secs_str };
    assert(secs_abs =~= v@.subrange(abs_lo as int, colon as int));
    // seconds: digits without a superfluous leading zero
    if abs_lo >= colon || !all_digits_in(v, abs_lo, colon) {
        return Err(parse_error("invalid seconds: '", v, lo, colon, "'"));
    }
    if colon - abs_lo > 1 && v[abs_lo] == '0' {
        assert(secs_abs[0] == v@[abs_lo as int]);
        return Err(parse_error("leading zeros in seconds: '", v, lo, colon, "'"));
    }
    // nanoseconds: the same shape
    if colon + 1 >= hi || !all_digits_in(v, colon + 1, hi) {
        return Err(parse_error("invalid nanoseconds: '", v, colon + 1, hi, "'"));
    }
    if hi - (colon + 1) > 1 && v[colon + 1] == '0' {
        assert(nanos_str[0] == v@[colon + 1]);
        return Err(parse_error("leading zeros in nanoseconds: '", v, colon + 1, hi, "'"));
    }
    assert(secs_abs.len() > 1 ==> secs_abs[0] == v@[abs_lo as int]);
    assert(nanos_str.len() > 1 ==> nanos_str[0] == v@[colon + 1]);
    let too_far = if neg {
        "': number too small to fit in target type"
    } else {
        "': number too large to fit in target type"
    };
    proof {
        reveal_strlit("': number too small to fit in target type");
        reveal_strlit("': number too large to fit in target type");
        assert(too_far@ == too_far_text(neg));
    }
    // the values, each within a signed 128-bit count
    let limit: u128 = if neg {
        0x8000_0000_0000_0000_0000_0000_0000_0000u128
    } else {
        0x7fff_ffff_ffff_ffff_ffff_ffff_ffff_ffffu128
    };
    let mag = match read_digits(v, abs_lo, colon, limit) {
        Some(m) => m,
        None => {
            return Err(parse_error("seconds overflow '", v, lo, colon, too_far));
        },
    };
    let nanos = match read_digits(v, colon + 1, hi, 0x7fff_ffff_ffff_ffff_ffff_ffff_ffff_ffffu128) {
        Some(n) => n,
        None => {
            return Err(parse_error("nanoseconds overflow '", v, colon + 1, hi, "': number too large to fit in target type"));
        },
    };
    if nanos > 999_999_999 {
        proof {
            reveal_strlit("");
        }
        return Err(parse_error("nanoseconds out of range: ", v, colon + 1, hi, ""));
    }
    let p: u128 = match mag.checked_mul(1_000_000_000) {
        Some(p) => p,
        None => {
            proof {
                let a = mag as int;
                let n = nanos as int;
                if neg {
                    assert(-a * 1_000_000_000 + n < i128::MIN) by (nonlinear_arith)
                        requires
                            a * 1_000_000_000 > u128::MAX,
                            0 <= n <= 999_999_999,
                    ;
                } else {
                    assert(a * 1_000_000_000 + n > i128::MAX) by (nonlinear_arith)
                        requires
                            a * 1_000_000_000 > u128::MAX,
                            0 <= n <= 999_999_999,
                    ;
                }
            }
            return Err(parse_error("seconds overflow '", v, lo, colon, too_far));
        },
    };
    if !neg {
        if p > 0x7fff_ffff_ffff_ffff_ffff_ffff_ffff_ffffu128 - nanos {
            return Err(parse_error("seconds overflow '", v, lo, colon, too_far));
        }
        let total: u128 = p + nanos;
        Ok(Timestamp { nanos: total as i128 })
    } else if p < nanos {
        assert(mag == 0);
        Ok(Timestamp { nanos: (nanos - p) as i128 })
    } else {
        let d: u128 = p - nanos;
        if d > 0x8000_0000_0000_0000_0000_0000_0000_0000u128 {
            return Err(parse_error("seconds overflow '", v, lo, colon, too_far));
        }
        let t: i128 = if d == 0x8000_0000_0000_0000_0000_0000_0000_0000u128 {
            i128::MIN
        } else {
            -(d as i128)
        };
        Ok(Timestamp { nanos: t })
    }
}

impl std::str::FromStr for Timestamp {
    type Err = TimestampParseError;

    fn from_str(s: &str) -> (r: Result<Self, Self::Err>)
        ensures
            match r {
                Ok(t) => spec_parse_timestamp(s@) == Some(t.nanos as int),
                Err(e) => spec_parse_timestamp(s@) is None && e@ == spec_timestamp_error(s@),
            },
    {
        Timestamp::parse(s)
    }
}

/// The characters of an integer's text: a leading minus sign exactly for negative values,
/// then canonical digits for the magnitude.
pub proof fn lemma_int_text_shape(i: int)
    ensures
        i < 0 ==> text::int_text(i) == seq!['-'] + text::nat_text((-i) as nat),
        i >= 0 ==> text::int_text(i) == text::nat_text(i as nat),
        text::int_text(i).len() >= 1,
        forall|j: int| 0 <= j < text::int_text(i).len() ==> #[trigger] text::int_text(i)[j] != ':',
        (text::int_text(i)[0] == '-') == (i < 0),
{
    let m: nat = if i < 0 { (-i) as nat } else { i as nat };
    text::lemma_nat_text(m);
    let t = text::nat_text(m);
    assert(text::is_digit(t[0]));
    assert forall|j: int| 0 <= j < text::int_text(i).len() implies #[trigger] text::int_text(i)[j] != ':' by {
        if i < 0 {
            if j > 0 {
                assert(text::int_text(i)[j] == t[j - 1]);
                assert(text::is_digit(t[j - 1]));
            }
        } else {
            assert(text::is_digit(t[j]));
        }
    }
}

/// Reading back the text of a timestamp gives the timestamp, whenever its seconds fit an `i64`
/// (the text shows the seconds as an `i64`).
pub proof fn lemma_timestamp_text_parses(n: i128)
    requires
        i64::MIN <= spec_secs(n as int) <= i64::MAX,
    ensures
        spec_parse_timestamp(timestamp_text(n as int)) == Some(n as int),
{
    let q = spec_secs(n as int);
    let r = spec_subsec(n as int);
    assert(q as i64 as int == q);
    let it = text::int_text(q);
    let nt = text::nat_text(r as nat);
    let s = timestamp_text(n as int);
    assert(s == it + seq![':'] + nt);
    lemma_int_text_shape(q);
    text::lemma_nat_text(r as nat);
    let c = it.len() as int;
    assert(text::is_first_index(s, ':', c)) by {
        assert(s[c] == ':');
        assert forall|j: int| 0 <= j < c implies s[j] != ':' by {
            assert(s[j] == it[j]);
        }
    }
    text::lemma_first_index(s, ':', c);
    assert(s.take(c) =~= it);
    assert(s.skip(c + 1) =~= nt);
    let m: nat = if q < 0 { (-q) as nat } else { q as nat };
    text::lemma_nat_text(m);
    if q < 0 {
        assert(it.skip(1) =~= text::nat_text(m));
    }
    assert(q * 1_000_000_000 + r == n);
}

/// A well-formed timestamp text is the text of the value it denotes, unless its seconds
/// are written `-0` (read as zero, shown without the sign) or do not fit an `i64`.
pub proof fn lemma_parsed_timestamp_text(s: Seq<char>)
    requires
        spec_parse_timestamp(s) is Some,
        !(s.len() >= 2 && s[0] == '-' && s[1] == '0'),
        i64::MIN <= spec_secs(spec_parse_timestamp(s)->0) <= i64::MAX,
    ensures
        timestamp_text(spec_parse_timestamp(s)->0) == s,
{
    let c = text::first_index(s, ':')->0;
    assert(s.contains(':'));
    let k = choose|k: int| 0 <= k < s.len() && s[k] == ':';
    text::lemma_first_index_exists(s, ':', k);
    assert(text::is_first_index(s, ':', c));
    let secs_str = s.take(c);
    let nanos_str = s.skip(c + 1);
    let neg = secs_str.len() > 0 && secs_str[0] == '-';
    let secs_abs = if neg { secs_str.skip(1) } else { secs_str };
    let a = text::digits_value(secs_abs) as int;
    let r = text::digits_value(nanos_str) as int;
    let secs = if neg { -a } else { a };
    let v = spec_parse_timestamp(s)->0;
    assert(v == secs * 1_000_000_000 + r);
    assert(spec_secs(v) == secs);
    assert(spec_subsec(v) == r);
    text::lemma_canonical_digits_text(secs_abs);
    text::lemma_canonical_digits_text(nanos_str);
    if neg {
        assert(secs_str.len() >= 2);
        assert(secs_abs[0] == s[1]);
        text::lemma_digits_value_positive(secs_abs);
        assert(a >= 1);
        assert(text::int_text(secs) =~= secs_str);
    } else {
        assert(text::int_text(secs) =~= secs_str);
    }
    assert(s =~= secs_str + seq![':'] + nanos_str);
}

/// Timestamp texts are made of digits, a minus sign and one colon, and are never empty.
pub proof fn lemma_timestamp_text_chars(n: int)
    ensures
        timestamp_text(n).len() >= 3,
        forall|j: int|
            0 <= j < timestamp_text(n).len() ==> {
                let c = #[trigger] timestamp_text(n)[j];
                text::is_digit(c) || c == '-' || c == ':'
            },
{
    let q = spec_secs(n) as i64 as int;
    let r = spec_subsec(n) as nat;
    let it = text::int_text(q);
    let nt = text::nat_text(r);
    lemma_int_text_shape(q);
    text::lemma_nat_text(r);
    let m: nat = if q < 0 { (-q) as nat } else { q as nat };
    text::lemma_nat_text(m);
    let t = timestamp_text(n);
    assert(t == it + seq![':'] + nt);
    assert forall|j: int| 0 <= j < t.len() implies {
        let c = #[trigger] t[j];
        text::is_digit(c) || c == '-' || c == ':'
    } by {
        if j < it.len() {
            assert(t[j] == it[j]);
            if q < 0 {
                if j > 0 {
                    assert(it[j] == text::nat_text(m)[j - 1]);
                }
            } else {
                assert(text::is_digit(text::nat_text(m)[j]));
            }
        } else if j > it.len() {
            assert(t[j] == nt[j - it.len() - 1]);
        }
    }
}

} // verus!
