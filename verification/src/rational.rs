//! Rational numbers (frame rates, durations, aspect ratios) as integer pairs.
use vstd::prelude::*;

use crate::text;
use crate::text::{push_int_text, string_of};

verus! {

/// The denominator used when a rational omits one.
pub fn default_denominator() -> (r: i64)
    ensures
        r == 1,
{
    1
}

/// Unvalidated numerator/denominator pair, as read from a document.
pub struct RationalRaw {
    pub numerator: i64,
    pub denominator: i64,
}

/// Rational number as numerator/denominator pair.
///
/// The TAMS spec requires both numerator and denominator to be positive;
/// `try_from_raw` enforces this on values read from documents.
#[derive(Debug, Clone, Copy, PartialEq, Eq, Structural)]
pub struct Rational {
    pub numerator: i64,
    pub denominator: i64,
}

/// Integer division rounding towards zero, as Rust's `/` does.
pub open spec fn trunc_div(x: int, d: int) -> int {
    if x >= 0 && d > 0 {
        x / d
    } else if x < 0 && d < 0 {
        (-x) / (-d)
    } else if x < 0 {
        -((-x) / d)
    } else {
        -(x / (-d))
    }
}

/// The message for a component that must be positive.
pub open spec fn not_positive_message(what: Seq<char>, value: int) -> Seq<char> {
    what + " must be positive, got "@ + text::int_text(value)
}

fn not_positive(what: &str, value: i64) -> (r: String)
    ensures
        r@ == not_positive_message(what@, value as int),
{
    let mut v: Vec<char> = Vec::new();
    push_int_text(value as i128, &mut v);
    let n = string_of(v.as_slice());
    String::from_str(what).concat(" must be positive, got ").concat(n.as_str())
}

impl Rational {
    pub fn new(numerator: i64, denominator: i64) -> (r: Self)
        requires
            numerator > 0,
            denominator > 0,
        ensures
            r.numerator == numerator,
            r.denominator == denominator,
    {
        Self { numerator, denominator }
    }

    /// Validates a pair read from a document: both parts must be positive.
    pub fn try_from_raw(raw: RationalRaw) -> (r: Result<Rational, String>)
        ensures
            raw.numerator <= 0 ==> (r matches Err(m) && m@ == not_positive_message(
                "numerator"@,
                raw.numerator as int,
            )),
            raw.numerator > 0 && raw.denominator <= 0 ==> (r matches Err(m) && m@
                == not_positive_message("denominator"@, raw.denominator as int)),
            raw.numerator > 0 && raw.denominator > 0 ==> r == Ok::<Rational, String>(
                Rational { numerator: raw.numerator, denominator: raw.denominator },
            ),
    {
        if raw.numerator <= 0 {
            return Err(not_positive("numerator", raw.numerator));
        }
        if raw.denominator <= 0 {
            return Err(not_positive("denominator", raw.denominator));
        }
        Ok(Rational { numerator: raw.numerator, denominator: raw.denominator })
    }

    /// Convert a rational duration (in seconds) to nanoseconds:
    /// `1_000_000_000 * numerator / denominator`, truncated to an `i64`.
    pub fn to_nanos(self) -> (r: i64)
        requires
            self.denominator != 0,
        ensures
            r == trunc_div(1_000_000_000 * self.numerator, self.denominator as int) as i64,
    {
        let x: i128 = 1_000_000_000i128 * self.numerator as i128;
        let q = x.checked_div(self.denominator as i128).unwrap();
        q as i64
    }

    /// Duration of one frame in nanoseconds when self is a frame rate:
    /// `1_000_000_000 * denominator / numerator`, truncated to an `i64`.
    pub fn frame_duration_nanos(self) -> (r: i64)
        requires
            self.numerator != 0,
        ensures
            r == trunc_div(1_000_000_000 * self.denominator, self.numerator as int) as i64,
    {
        let x: i128 = 1_000_000_000i128 * self.denominator as i128;
        let q = x.checked_div(self.numerator as i128).unwrap();
        q as i64
    }
}

} // verus!
