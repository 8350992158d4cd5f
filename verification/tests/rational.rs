use tams::rational::{default_denominator, Rational, RationalRaw};


// -- Construction --

#[test]
fn new_basic() {
    let r = Rational::new(30000, 1001);
    assert_eq!(r.numerator, 30000);
    assert_eq!(r.denominator, 1001);
}

#[test]
fn new_simple_rate() {
    let r = Rational::new(25, 1);
    assert_eq!(r.numerator, 25);
    assert_eq!(r.denominator, 1);
}

// -- Serde --

#[test]
fn frame_duration_25fps() {
    let r = Rational::new(25, 1);
    assert_eq!(r.frame_duration_nanos(), 40_000_000);
}

#[test]
fn frame_duration_29_97fps() {
    let r = Rational::new(30000, 1001);
    assert_eq!(r.frame_duration_nanos(), 33_366_666);
}

#[test]
fn frame_duration_50fps() {
    let r = Rational::new(50, 1);
    assert_eq!(r.frame_duration_nanos(), 20_000_000);
}

#[test]
fn to_nanos_10_seconds() {
    let r = Rational::new(10, 1);
    assert_eq!(r.to_nanos(), 10_000_000_000);
}

#[test]
fn to_nanos_half_second() {
    let r = Rational::new(1, 2);
    assert_eq!(r.to_nanos(), 500_000_000);
}

#[test]
fn to_nanos_ntsc_frame() {
    let r = Rational::new(1001, 30000);
    assert_eq!(r.to_nanos(), 33_366_666);
}

// -- Validation of pairs read from documents --

#[test]
fn raw_pair_accepted_when_positive() {
    let r = Rational::try_from_raw(RationalRaw { numerator: 25, denominator: default_denominator() }).unwrap();
    assert_eq!(r, Rational::new(25, 1));
}

#[test]
fn raw_pair_rejects_non_positive_numerator() {
    let e = Rational::try_from_raw(RationalRaw { numerator: 0, denominator: 1 }).unwrap_err();
    assert_eq!(e, "numerator must be positive, got 0");
    let e = Rational::try_from_raw(RationalRaw { numerator: -5, denominator: 1 }).unwrap_err();
    assert_eq!(e, "numerator must be positive, got -5");
}

#[test]
fn raw_pair_rejects_non_positive_denominator() {
    let e = Rational::try_from_raw(RationalRaw { numerator: 25, denominator: 0 }).unwrap_err();
    assert_eq!(e, "denominator must be positive, got 0");
    let e = Rational::try_from_raw(RationalRaw { numerator: 25, denominator: -1 }).unwrap_err();
    assert_eq!(e, "denominator must be positive, got -1");
}
